//! Desktop-entry field codes and their removal from an argument vector.
//!
//! An exec line may carry placeholders such as `%f` or `%U` that stand for
//! files or URIs handed to the application. The launcher never opens an
//! application "with arguments", so it drops every such placeholder and
//! leaves all other tokens as they are.

use vstd::prelude::*;

use crate::launcher::Launcher;

verus! {

/// Whether `token` is, letter for letter, one of the thirteen placeholders
/// `%f %F %u %U %d %D %n %N %i %c %k %v %%m`.
pub open spec fn is_field_code(token: Seq<char>) -> bool {
    ||| token =~= seq!['%', 'f']
    ||| token =~= seq!['%', 'F']
    ||| token =~= seq!['%', 'u']
    ||| token =~= seq!['%', 'U']
    ||| token =~= seq!['%', 'd']
    ||| token =~= seq!['%', 'D']
    ||| token =~= seq!['%', 'n']
    ||| token =~= seq!['%', 'N']
    ||| token =~= seq!['%', 'i']
    ||| token =~= seq!['%', 'c']
    ||| token =~= seq!['%', 'k']
    ||| token =~= seq!['%', 'v']
    ||| token =~= seq!['%', '%', 'm']
}

/// The tokens of `args` that are no field code, in the order in which they came.
pub open spec fn strip_field_codes(args: Seq<Seq<char>>) -> Seq<Seq<char>> {
    args.filter(|token: Seq<char>| !is_field_code(token))
}

/// Whether `c` is the letter of a two-character field code.
spec fn is_code_letter(c: char) -> bool {
    c == 'f' || c == 'F' || c == 'u' || c == 'U' || c == 'd' || c == 'D' || c == 'n' || c == 'N'
        || c == 'i' || c == 'c' || c == 'k' || c == 'v'
}

/// A field code is `%` and a code letter, or `%%m`.
proof fn lemma_field_code_shape(token: Seq<char>)
    ensures
        is_field_code(token) <==> {
            ||| token.len() == 2 && token[0] == '%' && is_code_letter(token[1])
            ||| token.len() == 3 && token[0] == '%' && token[1] == '%' && token[2] == 'm'
        },
{
    if token.len() == 2 && token[0] == '%' && is_code_letter(token[1]) {
        assert(token =~= seq!['%', token[1]]);
    }
    if token.len() == 3 && token[0] == '%' && token[1] == '%' && token[2] == 'm' {
        assert(token =~= seq!['%', '%', 'm']);
    }
}

/// No field code survives stripping.
pub proof fn lemma_strip_leaves_no_field_code(args: Seq<Seq<char>>)
    ensures
        forall|i: int|
            0 <= i < strip_field_codes(args).len() ==> !is_field_code(
                #[trigger] strip_field_codes(args)[i],
            ),
{
    let keep = |token: Seq<char>| !is_field_code(token);
    assert forall|i: int| 0 <= i < strip_field_codes(args).len() implies !is_field_code(
        #[trigger] strip_field_codes(args)[i],
    ) by {
        args.lemma_filter_pred(keep, i);
    }
}

/// An argument vector that holds no field code is left exactly as it is.
pub proof fn lemma_strip_keeps_clean_vector(args: Seq<Seq<char>>)
    ensures
        (forall|i: int| 0 <= i < args.len() ==> !is_field_code(#[trigger] args[i]))
            ==> strip_field_codes(args) == args,
    decreases args.len(),
{
    if (forall|i: int| 0 <= i < args.len() ==> !is_field_code(#[trigger] args[i])) {
        if args.len() == 0 {
            reveal(Seq::filter);
        } else {
            let front = args.drop_last();
            assert forall|i: int| 0 <= i < front.len() implies !is_field_code(
                #[trigger] front[i],
            ) by {
                assert(front[i] == args[i]);
            }
            lemma_strip_keeps_clean_vector(front);
            front.lemma_filter_push(args.last(), |token: Seq<char>| !is_field_code(token));
            assert(front.push(args.last()) =~= args);
        }
    }
}

/// Stripping is idempotent: a second pass over a stripped vector changes
/// nothing.
pub proof fn lemma_strip_idempotent(args: Seq<Seq<char>>)
    ensures
        strip_field_codes(strip_field_codes(args)) == strip_field_codes(args),
{
    lemma_strip_leaves_no_field_code(args);
    lemma_strip_keeps_clean_vector(strip_field_codes(args));
}

/// Stripping works token by token: wherever `token` stands in a vector, it
/// is removed if it is a field code and kept in its place otherwise, while
/// the tokens before and after it are stripped on their own. The relative
/// order of what remains is therefore that of the input.
pub proof fn lemma_strip_tokenwise(before: Seq<Seq<char>>, token: Seq<char>, after: Seq<Seq<char>>)
    ensures
        strip_field_codes(before + seq![token] + after) == strip_field_codes(before) + (
        if is_field_code(token) {
            Seq::<Seq<char>>::empty()
        } else {
            seq![token]
        }) + strip_field_codes(after),
{
    let keep = |token: Seq<char>| !is_field_code(token);
    Seq::filter_distributes_over_add(before + seq![token], after, keep);
    Seq::filter_distributes_over_add(before, seq![token], keep);
    Seq::<Seq<char>>::empty().lemma_filter_push(token, keep);
    assert(Seq::<Seq<char>>::empty().push(token) =~= seq![token]);
    assert(Seq::<Seq<char>>::empty().filter(keep) =~= Seq::<Seq<char>>::empty()) by {
        reveal(Seq::filter);
    }
}

fn code_letter(c: char) -> (b: bool)
    ensures
        b == is_code_letter(c),
{
    c == 'f' || c == 'F' || c == 'u' || c == 'U' || c == 'd' || c == 'D' || c == 'n' || c == 'N'
        || c == 'i' || c == 'c' || c == 'k' || c == 'v'
}

impl Launcher {
    /// Tells whether `arg` is a field code. Reads at most four characters.
    pub fn is_field_code(&self, arg: &str) -> (b: bool)
        ensures
            b == is_field_code(arg@),
    {
        proof {
            lemma_field_code_shape(arg@);
        }
        let mut rest = arg.chars();
        let first = rest.next();
        let second = rest.next();
        let third = rest.next();
        let fourth = rest.next();
        match (first, second, third, fourth) {
            (Some(a), Some(b), None, _) => a == '%' && code_letter(b),
            (Some(a), Some(b), Some(c), None) => a == '%' && b == '%' && c == 'm',
            _ => false,
        }
    }

    /// Drops every field code from `args` and keeps the rest in order.
    pub fn filter_field_codes(&self, args: Vec<String>) -> (kept: Vec<String>)
        ensures
            kept.deep_view() == strip_field_codes(args.deep_view()),
            forall|i: int| 0 <= i < kept.len() ==> !is_field_code(#[trigger] kept[i]@),
    {
        let ghost all = args.deep_view();
        let mut kept: Vec<String> = Vec::new();
        for arg in it: args
            invariant
                it.seq().len() == all.len(),
                forall|i: int| 0 <= i < all.len() ==> (#[trigger] it.seq()[i])@ == all[i],
                kept.deep_view() == strip_field_codes(all.take(it.index() as int)),
        {
            proof {
                let seen = all.take(it.index() as int);
                assert(all.take(it.index() + 1) =~= seen.push(arg@));
                seen.lemma_filter_push(arg@, |token: Seq<char>| !is_field_code(token));
            }
            if !self.is_field_code(arg.as_str()) {
                kept.push(arg);
            }
        }
        proof {
            assert(all.take(all.len() as int) =~= all);
            lemma_strip_leaves_no_field_code(all);
            assert forall|i: int| 0 <= i < kept.len() implies !is_field_code(
                #[trigger] kept[i]@,
            ) by {
                assert(kept[i]@ == kept.deep_view()[i]);
            }
        }
        kept
    }
}

} // verus!
