//! The text operations of the gateway.
//!
//! A caller hands in a null-terminated buffer. The text of the call is the
//! bytes before the first nul; if they are well-formed UTF-8 they are
//! emitted as they stand, otherwise the fixed fallback text takes their
//! place. The checked variant reports a decode error instead of
//! substituting.

use vstd::prelude::*;
use vstd::slice::{slice_subrange, slice_to_vec};
use crate::utf8::{is_utf8, is_valid_utf8};

verus! {

/// Some byte of `s` is a nul terminator.
pub open spec fn has_nul(s: Seq<u8>) -> bool {
    exists|i: int| 0 <= i < s.len() && s[i] == 0
}

/// Index of the first nul byte of `s`; meaningful only when `has_nul(s)`.
pub open spec fn first_nul_index(s: Seq<u8>) -> int
    decreases s.len(),
{
    if s.len() == 0 {
        0
    } else if s[0] == 0 {
        0
    } else {
        1 + first_nul_index(s.skip(1))
    }
}

/// The text carried by a null-terminated buffer:
/// the bytes before the first nul.
pub open spec fn terminated_text(s: Seq<u8>) -> Seq<u8> {
    s.take(first_nul_index(s))
}

/// The first nul index points at a nul, and everything before it is non-nul.
pub proof fn lemma_first_nul_index(s: Seq<u8>)
    requires
        has_nul(s),
    ensures
        0 <= first_nul_index(s) < s.len(),
        s[first_nul_index(s)] == 0,
        forall|j: int| 0 <= j < first_nul_index(s) ==> s[j] != 0,
    decreases s.len(),
{
    if s[0] != 0 {
        let w = choose|i: int| 0 <= i < s.len() && s[i] == 0;
        assert(s.skip(1)[w - 1] == 0);
        lemma_first_nul_index(s.skip(1));
        let f = first_nul_index(s.skip(1));
        assert(s[1 + f] == s.skip(1)[f]);
        assert forall|j: int| 0 <= j < 1 + f implies s[j] != 0 by {
            if j > 0 {
                assert(s[j] == s.skip(1)[j - 1]);
            }
        }
    }
}

/// Position of the first nul byte of a null-terminated buffer.
pub fn find_nul(bytes: &[u8]) -> (p: usize)
    requires
        has_nul(bytes@),
    ensures
        p == first_nul_index(bytes@),
        p < bytes@.len(),
        bytes@[p as int] == 0,
        forall|j: int| 0 <= j < p ==> bytes@[j] != 0,
{
    proof {
        lemma_first_nul_index(bytes@);
    }
    let ghost f = first_nul_index(bytes@);
    let mut i: usize = 0;
    while bytes[i] != 0
        invariant
            has_nul(bytes@),
            f == first_nul_index(bytes@),
            0 <= f < bytes@.len(),
            bytes@[f] == 0,
            forall|j: int| 0 <= j < f ==> bytes@[j] != 0,
            i <= f,
        decreases bytes@.len() - i,
    {
        i = i + 1;
    }
    assert(i == f);
    i
}

/// The fallback text, substituted when the bytes do not decode: "Foo".
pub open spec fn fallback_text() -> Seq<u8> {
    seq![0x46u8, 0x6Fu8, 0x6Fu8]
}

/// The bytes emitted by the text operation for terminated text `t`:
/// `t` itself when it is well-formed, the fallback text otherwise,
/// and never a trailing newline.
pub open spec fn text_output(t: Seq<u8>) -> Seq<u8> {
    if is_utf8(t) {
        t
    } else {
        fallback_text()
    }
}

/// The bytes emitted by the text-line operation for terminated text `t`:
/// the text operation's bytes followed by one newline.
pub open spec fn text_line_output(t: Seq<u8>) -> Seq<u8> {
    text_output(t).push(crate::NEWLINE)
}

/// Renders the text operation on a null-terminated buffer.
pub fn render_text(bytes: &[u8]) -> (out: Vec<u8>)
    requires
        has_nul(bytes@),
    ensures
        out@ == text_output(terminated_text(bytes@)),
{
    let p = find_nul(bytes);
    let text = slice_subrange(bytes, 0, p);
    assert(text@ =~= terminated_text(bytes@));
    if is_valid_utf8(text) {
        slice_to_vec(text)
    } else {
        let out: Vec<u8> = vec![0x46u8, 0x6Fu8, 0x6Fu8];
        assert(out@ =~= fallback_text());
        out
    }
}

/// Renders the text-line operation on a null-terminated buffer.
pub fn render_text_line(bytes: &[u8]) -> (out: Vec<u8>)
    requires
        has_nul(bytes@),
    ensures
        out@ == text_line_output(terminated_text(bytes@)),
{
    let mut out = render_text(bytes);
    out.push(crate::NEWLINE);
    out
}

/// Decoding failed: the bytes before the terminator are not valid text.
#[derive(Clone, Copy, PartialEq, Eq, Structural, Debug)]
pub struct DecodeError;

/// Checked decoding of a null-terminated buffer: the terminated text when
/// it is well-formed UTF-8, a decode error otherwise — never a silent
/// substitution.
pub fn decode_text(bytes: &[u8]) -> (r: Result<Vec<u8>, DecodeError>)
    requires
        has_nul(bytes@),
    ensures
        r is Ok <==> is_utf8(terminated_text(bytes@)),
        r matches Ok(t) ==> t@ == terminated_text(bytes@),
{
    let p = find_nul(bytes);
    let text = slice_subrange(bytes, 0, p);
    assert(text@ =~= terminated_text(bytes@));
    if is_valid_utf8(text) {
        Ok(slice_to_vec(text))
    } else {
        Err(DecodeError)
    }
}

/// The integer-line operation is stateless: its output is a function of
/// its input alone, so two calls on the same input emit the same bytes.
pub proof fn lemma_int_line_repeatable(n: nat, first: Seq<u8>, second: Seq<u8>)
    requires
        first == crate::decimal::int_line_output(n),
        second == crate::decimal::int_line_output(n),
    ensures
        first == second,
{
}

/// The text operation is stateless: its output is a function of its input
/// alone, so two calls on the same input emit the same bytes.
pub proof fn lemma_text_repeatable(t: Seq<u8>, first: Seq<u8>, second: Seq<u8>)
    requires
        first == text_output(t),
        second == text_output(t),
    ensures
        first == second,
{
}

/// The text-line operation is stateless: its output is a function of its
/// input alone, so two calls on the same input emit the same bytes.
pub proof fn lemma_text_line_repeatable(t: Seq<u8>, first: Seq<u8>, second: Seq<u8>)
    requires
        first == text_line_output(t),
        second == text_line_output(t),
    ensures
        first == second,
{
}

} // verus!
