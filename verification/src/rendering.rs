//! The bracketed, comma-separated rendering that both containers use for their
//! debug text.

use vstd::prelude::*;
use vstd::string::StringExecFns;

verus! {

/// The parts from `from` on, each but the first of them preceded by `", "`.
pub open spec fn separated(parts: Seq<Seq<char>>, from: int) -> Seq<char>
    decreases parts.len() - from,
{
    if from < 0 || from >= parts.len() {
        Seq::<char>::empty()
    } else if from == 0 {
        parts[from] + separated(parts, from + 1)
    } else {
        seq![',', ' '] + parts[from] + separated(parts, from + 1)
    }
}

/// `[part, part, part]`, and `[]` for no parts.
pub open spec fn listing(parts: Seq<Seq<char>>) -> Seq<char> {
    seq!['['] + separated(parts, 0) + seq![']']
}

/// The character sequences of the given strings.
pub open spec fn texts(parts: Seq<String>) -> Seq<Seq<char>> {
    Seq::new(parts.len(), |i: int| parts[i]@)
}

/// What `separated` yields when the parts before `upto` are written out in
/// turn: the accumulated text of the first `upto` parts.
spec fn written(parts: Seq<Seq<char>>, upto: int) -> Seq<char>
    decreases upto,
{
    if upto <= 0 {
        Seq::<char>::empty()
    } else if upto == 1 {
        parts[0]
    } else {
        written(parts, upto - 1) + seq![',', ' '] + parts[upto - 1]
    }
}

proof fn written_then_rest(parts: Seq<Seq<char>>, upto: int)
    requires
        0 <= upto <= parts.len(),
    ensures
        written(parts, upto) + separated(parts, upto) == separated(parts, 0),
    decreases upto,
{
    if upto == 0 {
        assert(written(parts, 0) + separated(parts, 0) =~= separated(parts, 0));
    } else {
        written_then_rest(parts, upto - 1);
        if upto == 1 {
            assert(written(parts, 1) + separated(parts, 1) =~= separated(parts, 0));
        } else {
            assert(written(parts, upto) + separated(parts, upto) =~= written(parts, upto - 1)
                + separated(parts, upto - 1));
        }
    }
}

/// `format!("{:?}", ..)`: the text that the element's `Debug` impl writes.
#[verifier::external_body]
pub(crate) fn debug_text<T: core::fmt::Debug>(element: &T) -> (text: String) {
    format!("{:?}", element)
}

/// Joins already rendered elements into one bracketed list.
pub fn render_list(parts: &Vec<String>) -> (text: String)
    ensures
        text@ == listing(texts(parts@)),
{
    let ghost all = texts(parts@);
    let mut text = String::new();
    text.append("[");
    proof {
        reveal_strlit("[");
        reveal_strlit(", ");
        reveal_strlit("]");
        assert("["@ =~= seq!['[']);
        assert(", "@ =~= seq![',', ' ']);
        assert("]"@ =~= seq![']']);
        assert(text@ =~= seq!['['] + written(all, 0));
    }
    let mut i: usize = 0;
    while i < parts.len()
        invariant
            i <= parts@.len(),
            all == texts(parts@),
            ", "@ == seq![',', ' '],
            text@ == seq!['['] + written(all, i as int),
        decreases parts@.len() - i,
    {
        if i > 0 {
            text.append(", ");
        }
        text.append(parts[i].as_str());
        proof {
            assert(all[i as int] == parts@[i as int]@);
            assert(text@ =~= seq!['['] + written(all, i + 1));
        }
        i += 1;
    }
    text.append("]");
    proof {
        written_then_rest(all, all.len() as int);
        assert(separated(all, all.len() as int) =~= Seq::<char>::empty());
        assert(written(all, all.len() as int) =~= separated(all, 0));
    }
    text
}

} // verus!
