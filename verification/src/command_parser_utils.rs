//! The `read_while` helper over the shared command-text reader.

use vstd::prelude::*;
use vstd::utf8::*;
use crate::text::{utf8, cut_point, byte_char, lemma_after_ascii_not_continuation};
pub use crate::string_reader::StringReaderModel;

verus! {

/// Whether a predicate on characters never stops a read in the middle of a
/// multi-byte character: it rejects every non-ASCII byte, or accepts every
/// continuation byte.
pub open spec fn stops_at_cut_points<P: Fn(char) -> bool>(predicate: P) -> bool {
    ||| forall|b: u8, r: bool| b >= 0x80 && call_ensures(predicate, (byte_char(b),), r) ==> !r
    ||| forall|b: u8, r: bool| is_continuation_byte(b) && call_ensures(predicate, (byte_char(b),), r) ==> r
}

/// Reads characters while `predicate` accepts them; returns what was read.
#[verifier::loop_isolation(true)]
pub fn read_while<P: Fn(char) -> bool>(reader: &mut StringReaderModel, predicate: P) -> (r: String)
    requires
        forall|c: char| call_requires(predicate, (c,)),
        stops_at_cut_points(predicate),
        old(reader).at_cut(),
    ensures
        final(reader).text() == old(reader).text(),
        final(reader).bytes() == old(reader).bytes(),
        old(reader).pos() <= final(reader).pos() <= old(reader).bytes().len(),
        forall|i: int| old(reader).pos() <= i < final(reader).pos()
            ==> call_ensures(predicate, (byte_char(old(reader).bytes()[i]),), true),
        final(reader).pos() < old(reader).bytes().len()
            ==> call_ensures(predicate, (byte_char(old(reader).bytes()[final(reader).pos()]),), false),
        utf8(r@) == old(reader).bytes().subrange(old(reader).pos(), final(reader).pos()),
{
    let start = reader.cursor();
    let ghost b = reader.bytes();
    loop
        invariant
            reader.bytes() == b,
            reader.text() == old(reader).text(),
            start <= reader.pos() <= b.len(),
            start == old(reader).pos(),
            b == old(reader).bytes(),
            forall|c: char| call_requires(predicate, (c,)),
            forall|i: int| start <= i < reader.pos()
                ==> call_ensures(predicate, (byte_char(b[i]),), true),
        ensures
            reader.bytes() == b,
            reader.text() == old(reader).text(),
            start <= reader.pos() <= b.len(),
            forall|i: int| start <= i < reader.pos()
                ==> call_ensures(predicate, (byte_char(b[i]),), true),
            reader.pos() < b.len() ==> call_ensures(predicate, (byte_char(b[reader.pos()]),), false),
        decreases b.len() - reader.pos(),
    {
        if !reader.can_read() {
            break;
        }
        let c = reader.peek();
        let ok = predicate(c);
        if !ok {
            break;
        }
        reader.skip();
    }
    proof {
        reader.lemma_bytes();
        let p = reader.pos();
        if 0 < p < b.len() && is_continuation_byte(b[p]) {
            if forall|x: u8, r: bool| x >= 0x80 && call_ensures(predicate, (byte_char(x),), r) ==> !r {
                if p > start {
                    assert(call_ensures(predicate, (byte_char(b[p - 1]),), true));
                    lemma_after_ascii_not_continuation(b, p);
                }
            } else {
                assert(call_ensures(predicate, (byte_char(b[p]),), false));
            }
        }
    }
    let end = reader.cursor();
    reader.slice_string(start, end)
}

} // verus!
