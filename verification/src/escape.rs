//! Delimiter-safe escaping of decoded text. The output document wraps each
//! body in a backtick code fence, so a run of backticks inside a payload could
//! end the fence early. The strategy chosen here, applied uniformly: insert a
//! zero-width joiner after every backtick, so no two backticks are ever
//! adjacent in rendered text and no fence delimiter sequence can occur.

use crate::strutil::push_char;
use vstd::prelude::*;

verus! {

/// Invisible character inserted after each backtick to break up fences.
pub const ZERO_WIDTH_JOINER: char = '\u{200d}';

/// What a single character of the payload becomes in the rendered text.
pub open spec fn escaped_char(c: char) -> Seq<char> {
    if c == '`' {
        seq!['`', ZERO_WIDTH_JOINER]
    } else {
        seq![c]
    }
}

/// The whole escaped text: each character in order, backticks neutralized.
pub open spec fn spec_escape(s: Seq<char>) -> Seq<char>
    decreases s.len(),
{
    if s.len() == 0 {
        Seq::empty()
    } else {
        spec_escape(s.drop_last()) + escaped_char(s.last())
    }
}

/// Escapes decoded text so that it cannot terminate its enclosing code fence.
pub fn escape_typst(text: &str) -> (r: String)
    ensures
        r@ == spec_escape(text@),
{
    let mut r = String::new();
    for c in it: text.chars()
        invariant
            it.seq() == text@,
            r@ == spec_escape(text@.take(it.index() as int)),
    {
        proof {
            assert(text@.take(it.index() + 1).drop_last() =~= text@.take(it.index() as int));
            assert(text@.take(it.index() + 1).last() == c);
        }
        if c == '`' {
            push_char(&mut r, '`');
            push_char(&mut r, ZERO_WIDTH_JOINER);
        } else {
            push_char(&mut r, c);
        }
        assert(r@ =~= spec_escape(text@.take(it.index() + 1)));
    }
    proof {
        assert(text@.take(text@.len() as int) =~= text@);
    }
    r
}

/// Every backtick in escaped text is immediately followed by a zero-width
/// joiner; in particular no two backticks are adjacent, so the fence
/// delimiter sequence never appears in a rendered body.
pub proof fn lemma_escape_breaks_fences(s: Seq<char>, i: int)
    requires
        0 <= i < spec_escape(s).len(),
        spec_escape(s)[i] == '`',
    ensures
        i + 1 < spec_escape(s).len(),
        spec_escape(s)[i + 1] == ZERO_WIDTH_JOINER,
    decreases s.len(),
{
    let pre = spec_escape(s.drop_last());
    if i < pre.len() {
        lemma_escape_breaks_fences(s.drop_last(), i);
    }
}

} // verus!
