//! The exchange with the external picker.
//!
//! The picker is a program that reads one candidate name per line and
//! answers with the line the user chose. This module decides what to start
//! and what to write to it, and turns what it wrote back into a selection.
//! Starting the program and moving the bytes is left to the caller.

use vstd::prelude::*;

use crate::launcher::Launcher;

verus! {

/// The process to start for one exchange, and the text to write to it.
pub struct PickerRequest {
    /// The executable to start.
    pub program: String,
    /// Its arguments, in order.
    pub args: Vec<String>,
    /// What to write to its input before closing it.
    pub input: String,
}

/// Whether `c` has the Unicode property `White_Space`.
pub open spec fn is_white_space(c: char) -> bool {
    ||| '\u{9}' <= c <= '\u{d}'
    ||| c == ' '
    ||| c == '\u{85}'
    ||| c == '\u{a0}'
    ||| c == '\u{1680}'
    ||| '\u{2000}' <= c <= '\u{200a}'
    ||| c == '\u{2028}'
    ||| c == '\u{2029}'
    ||| c == '\u{202f}'
    ||| c == '\u{205f}'
    ||| c == '\u{3000}'
}

/// `text` without the white space at its end.
pub open spec fn trim_end(text: Seq<char>) -> Seq<char>
    decreases text.len(),
{
    if text.len() > 0 && is_white_space(text.last()) {
        trim_end(text.drop_last())
    } else {
        text
    }
}

/// The selection that the picker's output stands for: its text without
/// trailing white space, or nothing where that leaves no text at all.
pub open spec fn choice_of(output: Seq<char>) -> Option<Seq<char>> {
    if trim_end(output).len() == 0 {
        None
    } else {
        Some(trim_end(output))
    }
}

/// What trimming leaves is the longest beginning of the text that does not
/// end in white space: it is a beginning of the text, it ends in no white
/// space, and all that was cut off is white space.
pub proof fn lemma_trim_end_cuts_trailing_white_space(text: Seq<char>)
    ensures
        trim_end(text).is_prefix_of(text),
        trim_end(text).len() > 0 ==> !is_white_space(trim_end(text).last()),
        forall|i: int| trim_end(text).len() <= i < text.len() ==> is_white_space(#[trigger] text[i]),
    decreases text.len(),
{
    if text.len() > 0 && is_white_space(text.last()) {
        let front = text.drop_last();
        lemma_trim_end_cuts_trailing_white_space(front);
        assert forall|i: int| trim_end(text).len() <= i < text.len() implies is_white_space(
            #[trigger] text[i],
        ) by {
            if i < front.len() {
                assert(text[i] == front[i]);
            }
        }
    }
}

/// Trimming is decided by the last character alone.
proof fn lemma_trim_end_push(text: Seq<char>, c: char)
    ensures
        trim_end(text.push(c)) == if is_white_space(c) {
            trim_end(text)
        } else {
            text.push(c)
        },
{
    assert(text.push(c).drop_last() =~= text);
}

/// Tells whether `c` is white space.
pub fn is_whitespace(c: char) -> (b: bool)
    ensures
        b == is_white_space(c),
{
    ('\u{9}' <= c && c <= '\u{d}') || c == ' ' || c == '\u{85}' || c == '\u{a0}' || c
        == '\u{1680}' || ('\u{2000}' <= c && c <= '\u{200a}') || c == '\u{2028}' || c
        == '\u{2029}' || c == '\u{202f}' || c == '\u{205f}' || c == '\u{3000}'
}

impl Launcher {
    /// Plans the exchange that offers `names` to the picker `receiver`.
    ///
    /// The first word of `receiver` is the program, the others are its
    /// arguments, and `names` goes to its input untouched. An empty
    /// `receiver` names no program, so there is nothing to plan.
    pub fn send_application_names(&self, names: String, receiver: Vec<String>) -> (request: Option<
        PickerRequest,
    >)
        ensures
            receiver.len() == 0 <==> request is None,
            request matches Some(r) ==> {
                &&& r.program@ == receiver[0]@
                &&& r.args.deep_view() == receiver.deep_view().drop_first()
                &&& r.input@ == names@
            },
    {
        let mut words = receiver;
        if words.len() == 0 {
            return None;
        }
        let program = words.remove(0);
        proof {
            assert(words.deep_view() =~= receiver.deep_view().drop_first());
        }
        Some(PickerRequest { program, args: words, input: names })
    }

    /// Reads the picker's answer.
    ///
    /// White space at the end of `output` is no part of the name. An answer
    /// that holds nothing else means that nothing was selected.
    pub fn receive_choice(&self, output: &str) -> (choice: Option<String>)
        ensures
            choice.deep_view() == choice_of(output@),
    {
        let total = output.unicode_len();
        let mut seen: usize = 0;
        let mut end: usize = 0;
        let chars = output.chars();
        for c in it: chars
            invariant
                it.seq() == output@,
                total == output@.len(),
                seen == it.index(),
                end <= seen <= total,
                trim_end(output@.take(seen as int)) == output@.take(end as int),
        {
            proof {
                assert(output@.take(seen + 1) =~= output@.take(seen as int).push(c));
                lemma_trim_end_push(output@.take(seen as int), c);
            }
            seen = seen + 1;
            if !is_whitespace(c) {
                end = seen;
            }
        }
        proof {
            assert(output@.take(total as int) =~= output@);
        }
        if end == 0 {
            None
        } else {
            Some(output.substring_char(0, end).to_owned())
        }
    }
}

} // verus!
