//! Parameters of API requests.

use vstd::prelude::*;

use crate::number::decimal_text;
use crate::text::joined;

verus! {

/// The parameters of a request, each a name and a value.
pub type Params = Vec<(&'static str, String)>;

/// The texts of the parameters.
pub open spec fn param_views(params: Seq<(&'static str, String)>) -> Seq<(Seq<char>, Seq<char>)> {
    params.map_values(|p: (&'static str, String)| (p.0@, p.1@))
}

/// Add a parameter.
pub fn push_param(params: &mut Params, name: &'static str, value: &str)
    ensures
        param_views(final(params)@) == param_views(old(params)@).push((name@, value@)),
{
    let ghost before = params@;
    params.push((name, value.to_owned()));
    assert(param_views(params@) =~= param_views(before).push((name@, value@)));
}

/// The parameters in their order.
pub fn build_params(list: &[(&'static str, &str)]) -> (params: Params)
    ensures
        param_views(params@) == list@.map_values(|p: (&'static str, &str)| (p.0@, p.1@)),
{
    let ghost whole = list@.map_values(|p: (&'static str, &str)| (p.0@, p.1@));
    let mut params: Params = Vec::new();
    let mut i: usize = 0;
    assert(param_views(params@) =~= whole.take(0));
    while i < list.len()
        invariant
            i <= list@.len(),
            whole == list@.map_values(|p: (&'static str, &str)| (p.0@, p.1@)),
            param_views(params@) == whole.take(i as int),
        decreases list@.len() - i,
    {
        push_param(&mut params, list[i].0, list[i].1);
        i += 1;
        assert(whole.take(i as int) =~= whole.take(i - 1).push(whole[i - 1]));
    }
    assert(whole.take(i as int) =~= whole);
    params
}

/// The decimal notations of a sequence of numbers.
pub open spec fn decimals(numbers: Seq<u64>) -> Seq<Seq<char>> {
    numbers.map_values(|n: u64| crate::number::decimal(n as nat))
}

/// The numbers in decimal, with a bar between neighbours.
pub fn joined_numbers(numbers: &[u64]) -> (text: String)
    ensures
        text@ == crate::text::join(decimals(numbers@), "|"@),
{
    let mut parts: Vec<String> = Vec::new();
    let mut i: usize = 0;
    while i < numbers.len()
        invariant
            i <= numbers@.len(),
            crate::text::texts(parts@) == decimals(numbers@).take(i as int),
        decreases numbers@.len() - i,
    {
        let part = decimal_text(numbers[i]);
        let ghost before = parts@;
        parts.push(part);
        i += 1;
        assert(crate::text::texts(parts@) =~= crate::text::texts(before).push(part@));
        assert(decimals(numbers@).take(i as int) =~= decimals(numbers@).take(i - 1).push(
            decimals(numbers@)[i - 1],
        ));
    }
    assert(decimals(numbers@).take(i as int) =~= decimals(numbers@));
    joined(parts.as_slice(), "|")
}

} // verus!
