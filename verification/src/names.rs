//! Lists of layer and extension names: what is offered, what is asked for.

use vstd::prelude::*;
use itertools::Itertools;
use crate::constants::REQUIRED_INSTANCE_EXTENSIONS;

verus! {

/// The names of `required`, as character sequences.
pub open spec fn names_of(required: Seq<&str>) -> Seq<Seq<char>> {
    Seq::new(required.len(), |i: int| required[i]@)
}

/// Every name of `required` occurs in `available`.
pub open spec fn all_offered(required: Seq<Seq<char>>, available: Seq<Seq<char>>) -> bool {
    forall|i: int| 0 <= i < required.len() ==> available.contains(#[trigger] required[i])
}

/// `missing` is the position of the first name of `required` that
/// `available` lacks, or nothing where it has them all.
pub open spec fn is_first_missing(
    required: Seq<Seq<char>>,
    available: Seq<Seq<char>>,
    missing: Option<usize>,
) -> bool {
    match missing {
        Some(i) => {
            &&& i < required.len()
            &&& !available.contains(required[i as int])
            &&& forall|j: int| 0 <= j < i ==> available.contains(#[trigger] required[j])
        },
        None => all_offered(required, available),
    }
}

/// Whether `name` is one of the names of `list`.
pub fn is_one_of(name: &str, list: &[&str]) -> (listed: bool)
    ensures
        listed == names_of(list@).contains(name@),
{
    let wanted: String = name.to_owned();
    let mut j: usize = 0;
    while j < list.len()
        invariant
            j <= list@.len(),
            wanted@ == name@,
            forall|m: int| 0 <= m < j ==> names_of(list@)[m] != name@,
        decreases list@.len() - j,
    {
        let candidate: String = list[j].to_owned();
        if candidate == wanted {
            assert(names_of(list@)[j as int] == name@);
            return true;
        }
        j += 1;
    }
    false
}

/// Whether `name` is one of `available`.
pub fn is_supported(name: &str, available: &[String]) -> (offered: bool)
    ensures
        offered == available.deep_view().contains(name@),
{
    let wanted: String = name.to_owned();
    let mut j: usize = 0;
    while j < available.len()
        invariant
            j <= available@.len(),
            wanted@ == name@,
            forall|m: int| 0 <= m < j ==> available.deep_view()[m] != name@,
        decreases available@.len() - j,
    {
        if available[j] == wanted {
            assert(available.deep_view()[j as int] == name@);
            return true;
        }
        j += 1;
    }
    false
}

/// The first name of `required` that `available` does not offer.
pub fn first_unsupported(required: &[&str], available: &[String]) -> (missing: Option<
    usize,
>)
    ensures
        is_first_missing(names_of(required@), available.deep_view(), missing),
{
    let mut i: usize = 0;
    while i < required.len()
        invariant
            i <= required@.len(),
            forall|j: int|
                0 <= j < i ==> available.deep_view().contains(#[trigger] names_of(required@)[j]),
        decreases required@.len() - i,
    {
        if !is_supported(required[i], available) {
            return Some(i);
        }
        i += 1;
    }
    None
}

/// Whether `available` offers every name of `required`.
pub fn all_supported(required: &[&str], available: &[String]) -> (offered: bool)
    ensures
        offered == all_offered(names_of(required@), available.deep_view()),
{
    first_unsupported(required, available).is_none()
}

/// `names` without its repetitions: each name once, where it first occurs.
pub open spec fn first_occurrences(names: Seq<Seq<char>>) -> Seq<Seq<char>>
    decreases names.len(),
{
    if names.len() == 0 {
        names
    } else {
        let earlier = names.drop_last();
        if earlier.contains(names.last()) {
            first_occurrences(earlier)
        } else {
            first_occurrences(earlier).push(names.last())
        }
    }
}

/// Dropping repetitions leaves no name twice and loses no name.
pub proof fn lemma_first_occurrences(names: Seq<Seq<char>>)
    ensures
        first_occurrences(names).no_duplicates(),
        forall|name: Seq<char>| first_occurrences(names).contains(name) <==> names.contains(name),
    decreases names.len(),
{
    if names.len() > 0 {
        let earlier = names.drop_last();
        let last = names.last();
        let kept = first_occurrences(earlier);
        lemma_first_occurrences(earlier);
        assert forall|name: Seq<char>| first_occurrences(names).contains(name) <==> names.contains(
            name,
        ) by {
            if names.contains(name) {
                let i = choose|i: int| 0 <= i < names.len() && names[i] == name;
                if i < earlier.len() {
                    assert(earlier[i] == name);
                    assert(earlier.contains(name));
                    assert(kept.contains(name));
                    if !earlier.contains(last) {
                        let k = choose|k: int| 0 <= k < kept.len() && kept[k] == name;
                        assert(kept.push(last)[k] == name);
                    }
                } else {
                    assert(name == last);
                    if !earlier.contains(last) {
                        assert(kept.push(last)[kept.len() as int] == last);
                    }
                }
            }
            if first_occurrences(names).contains(name) {
                let k = choose|k: int|
                    0 <= k < first_occurrences(names).len() && first_occurrences(names)[k] == name;
                if k < kept.len() {
                    assert(kept[k] == name);
                    assert(earlier.contains(name));
                    let i = choose|i: int| 0 <= i < earlier.len() && earlier[i] == name;
                    assert(names[i] == name);
                } else {
                    assert(name == last);
                    assert(names[names.len() - 1] == name);
                }
            }
        }
        if !earlier.contains(last) {
            assert(!kept.contains(last));
        }
    }
}

/// Calls `Itertools::unique` on the names and collects what it yields.
/// The contract is the one its documentation gives: an item is dropped where
/// an equal one came before, and the items kept stay in their order.
#[verifier::external_body]
fn unique_names(names: Vec<String>) -> (kept: Vec<String>)
    ensures
        kept.deep_view() == first_occurrences(names.deep_view()),
{
    names.into_iter().unique().collect()
}

/// The extensions to enable on an instance: the required ones, then those
/// the window system asks for, each name once.
pub fn instance_extension_names(window_extensions: &[String]) -> (names: Vec<String>)
    ensures
        names.deep_view() == first_occurrences(
            names_of(REQUIRED_INSTANCE_EXTENSIONS@) + window_extensions.deep_view(),
        ),
        names.deep_view().no_duplicates(),
        forall|name: Seq<char>|
            names.deep_view().contains(name) <==> (names_of(REQUIRED_INSTANCE_EXTENSIONS@)
                + window_extensions.deep_view()).contains(name),
{
    let mut all: Vec<String> = Vec::new();
    let ghost required = names_of(REQUIRED_INSTANCE_EXTENSIONS@);
    let ghost wanted = required + window_extensions.deep_view();
    let mut i: usize = 0;
    while i < REQUIRED_INSTANCE_EXTENSIONS.len()
        invariant
            i <= REQUIRED_INSTANCE_EXTENSIONS@.len(),
            all@.len() == i,
            required == names_of(REQUIRED_INSTANCE_EXTENSIONS@),
            forall|m: int| 0 <= m < i ==> (#[trigger] all@[m])@ == required[m],
        decreases REQUIRED_INSTANCE_EXTENSIONS@.len() - i,
    {
        all.push(REQUIRED_INSTANCE_EXTENSIONS[i].to_owned());
        i += 1;
    }
    let mut j: usize = 0;
    while j < window_extensions.len()
        invariant
            j <= window_extensions@.len(),
            all@.len() == required.len() + j,
            forall|m: int| 0 <= m < required.len() ==> (#[trigger] all@[m])@ == required[m],
            forall|m: int|
                0 <= m < j ==> (#[trigger] all@[required.len() + m])@ == window_extensions@[m]@,
        decreases window_extensions@.len() - j,
    {
        let ghost before = all@;
        all.push(window_extensions[j].clone());
        assert forall|m: int| 0 <= m < j + 1 implies (#[trigger] all@[required.len() + m])@
            == window_extensions@[m]@ by {
            if m < j {
                assert(all@[required.len() + m] == before[required.len() + m]);
            }
        }
        j += 1;
    }
    proof {
        assert forall|m: int| 0 <= m < wanted.len() implies all.deep_view()[m] == wanted[m] by {
            if m < required.len() {
                assert(all@[m]@ == required[m]);
            } else {
                let w = m - required.len();
                assert(all@[required.len() + w]@ == window_extensions@[w]@);
            }
        }
        assert(all.deep_view() =~= wanted);
        lemma_first_occurrences(wanted);
    }
    unique_names(all)
}

} // verus!
