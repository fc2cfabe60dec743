//! HTML frames with `{{name}}` placeholders, and how they are filled.
use vstd::prelude::*;

use crate::export::matching::pair_views;
use crate::text::{chars_of, replace, replace_chars, string_of};

verus! {

broadcast use vstd::string::group_string_axioms;

/// The placeholder of a value: its name between `{{` and `}}`.
pub open spec fn placeholder(name: Seq<char>) -> Seq<char> {
    "{{"@ + name + "}}"@
}

/// A template with the placeholder of each value replaced, everywhere it
/// occurs, one value after the other in the order given.
pub open spec fn filled(template: Seq<char>, values: Seq<(Seq<char>, Seq<char>)>) -> Seq<char>
    decreases values.len(),
{
    if values.len() == 0 {
        template
    } else {
        replace(
            filled(template, values.drop_last()),
            placeholder(values.last().0),
            values.last().1,
        )
    }
}

/// Fills each `{{name}}` of a template with its value.
pub fn render_template(template: &str, values: &Vec<(String, String)>) -> (r: String)
    ensures
        r@ == filled(template@, pair_views(values@)),
{
    let mut out = chars_of(template);
    let mut i: usize = 0;
    assert(pair_views(values@).take(0) =~= Seq::<(Seq<char>, Seq<char>)>::empty());
    while i < values.len()
        invariant
            0 <= i <= values.len(),
            out@ == filled(template@, pair_views(values@).take(i as int)),
        decreases values.len() - i,
    {
        let mut p = chars_of("{{");
        crate::text::append_str(&mut p, values[i].0.as_str());
        crate::text::append_str(&mut p, "}}");
        proof {
            reveal_strlit("{{");
            assert(p@ =~= placeholder(values@[i as int].0@));
            assert(p@.len() > 0) by {
                assert(p@[0] == '{');
            }
            assert(pair_views(values@).take(i + 1).drop_last() =~= pair_views(values@).take(i as int));
        }
        out = replace_chars(&out, &p, &chars_of(values[i].1.as_str()));
        i += 1;
    }
    assert(pair_views(values@).take(i as int) =~= pair_views(values@));
    string_of(&out)
}

} // verus!
