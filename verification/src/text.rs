//! Joining rendered values into one line of text.

use vstd::prelude::*;
use vstd::string::{to_string_from_display_ensures, StringExecFns};

verus! {

/// The texts of the strings.
pub open spec fn texts(parts: Seq<String>) -> Seq<Seq<char>> {
    parts.map_values(|p: String| p@)
}

/// The parts joined by `deli`. While nothing has been written, a part is
/// written without a delimiter before it, so that leading empty parts
/// leave no trace.
pub open spec fn join_spec(parts: Seq<Seq<char>>, deli: Seq<char>) -> Seq<char>
    decreases parts.len(),
{
    if parts.len() == 0 {
        Seq::empty()
    } else {
        let front = join_spec(parts.drop_last(), deli);
        if front.len() == 0 {
            parts.last()
        } else {
            front + deli + parts.last()
        }
    }
}

/// `parts` holds, in order, what `to_string` gave for each value.
pub open spec fn rendered<T: core::fmt::Display>(values: Seq<T>, parts: Seq<String>) -> bool {
    &&& parts.len() == values.len()
    &&& forall|i: int|
        0 <= i < values.len() ==> to_string_from_display_ensures::<T>(
            &#[trigger] values[i],
            parts[i],
        )
}

/// Joins the strings by `deli`.
pub fn join_strings(parts: &Vec<String>, deli: &str) -> (s: String)
    ensures
        s@ == join_spec(texts(parts@), deli@),
{
    let mut s: String = String::new();
    let mut i: usize = 0;
    while i < parts.len()
        invariant
            i <= parts.len(),
            s@ == join_spec(texts(parts@).take(i as int), deli@),
        decreases parts.len() - i,
    {
        proof {
            crate::seq_lemmas::lemma_take_step(texts(parts@), i as int);
        }
        if s.as_str().is_empty() {
            s = parts[i].clone();
        } else {
            s.append(deli);
            s.append(parts[i].as_str());
        }
        i = i + 1;
    }
    proof {
        crate::seq_lemmas::lemma_take_all(texts(parts@));
    }
    s
}

/// Renders each value with `to_string` and joins the results by `deli`.
pub fn vec_to_s<T: core::fmt::Display>(vec: &Vec<T>, deli: &str) -> (s: String)
    ensures
        exists|parts: Seq<String>|
            rendered(vec@, parts) && s@ == join_spec(#[trigger] texts(parts), deli@),
{
    let mut parts: Vec<String> = Vec::new();
    let mut i: usize = 0;
    while i < vec.len()
        invariant
            i <= vec.len(),
            rendered(vec@.take(i as int), parts@),
        decreases vec.len() - i,
    {
        let part: String = vec[i].to_string();
        parts.push(part);
        proof {
            assert forall|k: int| 0 <= k < i + 1 implies to_string_from_display_ensures::<T>(
                &#[trigger] vec@.take(i + 1)[k],
                parts@[k],
            ) by {
                if k < i {
                    assert(vec@.take(i as int)[k] == vec@.take(i + 1)[k]);
                }
            }
        }
        i = i + 1;
    }
    proof {
        crate::seq_lemmas::lemma_take_all(vec@);
    }
    let s = join_strings(&parts, deli);
    assert(rendered(vec@, parts@) && s@ == join_spec(texts(parts@), deli@));
    s
}

} // verus!
