use vstd::prelude::*;

verus! {

/// Number of leading bytes that the binary heuristic inspects.
pub const BINARY_SNIFF_LIMIT: usize = 2048;

/// The part of a file's content that the heuristic looks at.
pub open spec fn sniff_window(bytes: Seq<u8>) -> Seq<u8> {
    if bytes.len() <= BINARY_SNIFF_LIMIT {
        bytes
    } else {
        bytes.take(BINARY_SNIFF_LIMIT as int)
    }
}

/// A control byte other than line feed, carriage return and tab.
pub open spec fn is_control_byte(b: u8) -> bool {
    b < 32 && b != 10 && b != 13 && b != 9
}

/// How many control bytes `bytes` holds.
pub open spec fn control_count(bytes: Seq<u8>) -> nat
    decreases bytes.len(),
{
    if bytes.len() == 0 {
        0
    } else {
        control_count(bytes.drop_last()) + if is_control_byte(bytes.last()) {
            1nat
        } else {
            0nat
        }
    }
}

/// Whether `bytes` holds a NUL byte.
pub open spec fn has_nul(bytes: Seq<u8>) -> bool {
    exists|i: int| 0 <= i < bytes.len() && bytes[i] == 0
}

/// Content counts as binary when its window holds a NUL byte, or when more than
/// a tenth of the window is control bytes.
pub open spec fn looks_binary(bytes: Seq<u8>) -> bool {
    let window = sniff_window(bytes);
    has_nul(window) || control_count(window) * 10 > window.len()
}

/// Decides from a file's content whether the file is likely binary.
pub fn is_likely_binary_file(bytes: &[u8]) -> (binary: bool)
    ensures
        binary == looks_binary(bytes@),
{
    let check_len: usize = if bytes.len() <= BINARY_SNIFF_LIMIT {
        bytes.len()
    } else {
        BINARY_SNIFF_LIMIT
    };
    let ghost window = sniff_window(bytes@);
    let mut control: usize = 0;
    let mut i: usize = 0;
    while i < check_len
        invariant
            i <= check_len <= BINARY_SNIFF_LIMIT,
            check_len <= bytes@.len(),
            window == sniff_window(bytes@),
            window.len() == check_len,
            forall|k: int| 0 <= k < check_len ==> window[k] == bytes@[k],
            control == control_count(window.take(i as int)),
            control <= i,
            !has_nul(window.take(i as int)),
        decreases check_len - i,
    {
        let b = bytes[i];
        proof {
            assert(window.take(i + 1).drop_last() =~= window.take(i as int));
            assert(window.take(i + 1).last() == b);
        }
        if b == 0 {
            assert(window[i as int] == 0);
            return true;
        }
        if b < 32 && b != 10 && b != 13 && b != 9 {
            control += 1;
        }
        proof {
            let grown = window.take(i + 1);
            assert forall|k: int| 0 <= k < grown.len() implies #[trigger] grown[k] != 0 by {
                if k < i {
                    assert(window.take(i as int)[k] != 0);
                }
            }
        }
        i += 1;
    }
    assert(window.take(check_len as int) =~= window);
    control * 10 > check_len
}

} // verus!
