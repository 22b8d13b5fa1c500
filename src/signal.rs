//! The error signal that comes with each computed block.
use vstd::prelude::*;

verus! {

/// The message an error signal carries: the signal's first byte is an error
/// code, zero when the block was computed without error, and the bytes after
/// it hold the message.
pub open spec fn error_message(raw: Seq<u8>) -> Option<Seq<u8>> {
    if raw.len() > 0 && raw[0] != 0 {
        Some(raw.subrange(1, raw.len() as int))
    } else {
        None
    }
}

/// Returns the message bytes of an error signal, or `None` when it reports
/// no error.
pub fn engine_error(raw: &[u8]) -> (r: Option<Vec<u8>>)
    ensures
        r matches Some(m) ==> error_message(raw@) == Some(m@),
        r is None ==> error_message(raw@) is None,
{
    if raw.len() == 0 || raw[0] == 0 {
        return None;
    }
    let mut msg: Vec<u8> = Vec::new();
    let mut i: usize = 1;
    while i < raw.len()
        invariant
            1 <= i <= raw@.len(),
            msg@ == raw@.subrange(1, i as int),
        decreases raw@.len() - i,
    {
        msg.push(raw[i]);
        i += 1;
        proof {
            assert(msg@ =~= raw@.subrange(1, i as int));
        }
    }
    Some(msg)
}

} // verus!
