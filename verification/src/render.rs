//! The line of text that shows a chain.
//!
//! A list is shown on one line: every value stands between two spaces, the
//! marker `->` stands between a value and the next, and a line feed ends the
//! line. How a value itself is written is left to its `Display`.
use std::fmt::Display;
use vstd::prelude::*;
use vstd::string::*;

verus! {

/// The line that shows a chain whose values are written as `parts`.
pub open spec fn chain_line(parts: Seq<Seq<char>>) -> Seq<char>
    decreases parts.len(),
{
    if parts.len() == 0 {
        seq!['\n']
    } else if parts.len() == 1 {
        seq![' '] + parts[0] + seq![' '] + chain_line(parts.skip(1))
    } else {
        seq![' '] + parts[0] + seq![' ', '-', '>'] + chain_line(parts.skip(1))
    }
}

/// The characters of each string of `parts`.
pub open spec fn texts(parts: Seq<String>) -> Seq<Seq<char>> {
    parts.map_values(|part: String| part@)
}

/// `parts` holds, value by value, a text that `Display` writes for the value.
pub open spec fn written<T: Display>(values: Seq<T>, parts: Seq<String>) -> bool {
    &&& parts.len() == values.len()
    &&& forall|i: int|
        0 <= i < values.len() ==> to_string_from_display_ensures::<T>(
            &values[i],
            #[trigger] parts[i],
        )
}

/// `line` is the line that shows `values`, each written by its `Display`.
pub open spec fn shows<T: Display>(values: Seq<T>, line: Seq<char>) -> bool {
    exists|parts: Seq<String>| written(values, parts) && line == chain_line(texts(parts))
}

/// Writes the line that shows a chain whose values are written as `parts`.
pub fn render_chain(parts: &Vec<String>) -> (line: String)
    ensures
        line@ == chain_line(texts(parts@)),
{
    let mut line = String::new();
    let ghost all = texts(parts@);
    assert(all.skip(0) =~= all);
    for i in 0..parts.len()
        invariant
            all == texts(parts@),
            line@ + chain_line(all.skip(i as int)) == chain_line(all),
    {
        proof {
            reveal_strlit(" ");
            reveal_strlit("->");
            assert(all.skip(i as int).skip(1) =~= all.skip(i + 1));
        }
        line.append(" ");
        line.append(parts[i].as_str());
        line.append(" ");
        if i != parts.len() - 1 {
            line.append("->");
        }
    }
    proof {
        reveal_strlit("\n");
    }
    line.append("\n");
    line
}

} // verus!
