use crate::hash::MarfTrieId;
use crate::node::TriePtr;
use vstd::prelude::*;
use vstd::string::StringExecFns;

verus! {

/// Failures reported by the trie storage.
#[derive(Debug, Clone, PartialEq, Eq)]
pub enum MarfError {
    /// The underlying byte source or sink failed; carries the cause.
    IOError(String),
    /// The blob store failed for a reason other than contention; carries the cause.
    BackingStoreError(String),
    /// The blob store stayed locked by another writer until the retry budget ran out.
    BusyError,
    /// Stored data violate the format; carries a description.
    CorruptionError(String),
    /// The block or node asked for is absent.
    NotFoundError,
    /// The block is already present, or is being extended by another writer.
    ExistsError,
    /// A write was attempted through a read-only handle.
    ReadOnlyError,
    /// The operation does not fit the mode (confirmed or unconfirmed) of the handle.
    UnconfirmedError,
    /// A read-only view was requested while a trie is being extended.
    InProgressError,
    /// The identifier of the block being extended was requested; it has none yet.
    RequestedIdentifierForExtensionTrie,
    /// No block is selected.
    NotOpenedError,
}

/// The character that stands for a digit below sixteen.
pub open spec fn spec_digit_char(d: u8) -> char {
    if d == 0 {
        '0'
    } else if d == 1 {
        '1'
    } else if d == 2 {
        '2'
    } else if d == 3 {
        '3'
    } else if d == 4 {
        '4'
    } else if d == 5 {
        '5'
    } else if d == 6 {
        '6'
    } else if d == 7 {
        '7'
    } else if d == 8 {
        '8'
    } else if d == 9 {
        '9'
    } else if d == 10 {
        'a'
    } else if d == 11 {
        'b'
    } else if d == 12 {
        'c'
    } else if d == 13 {
        'd'
    } else if d == 14 {
        'e'
    } else {
        'f'
    }
}

/// The text of one digit below sixteen.
fn digit_str(d: u8) -> (r: &'static str)
    requires
        d < 16,
    ensures
        r@ == seq![spec_digit_char(d)],
{
    proof {
        reveal_strlit("0");
        reveal_strlit("1");
        reveal_strlit("2");
        reveal_strlit("3");
        reveal_strlit("4");
        reveal_strlit("5");
        reveal_strlit("6");
        reveal_strlit("7");
        reveal_strlit("8");
        reveal_strlit("9");
        reveal_strlit("a");
        reveal_strlit("b");
        reveal_strlit("c");
        reveal_strlit("d");
        reveal_strlit("e");
        reveal_strlit("f");
    }
    let r = if d == 0 {
        "0"
    } else if d == 1 {
        "1"
    } else if d == 2 {
        "2"
    } else if d == 3 {
        "3"
    } else if d == 4 {
        "4"
    } else if d == 5 {
        "5"
    } else if d == 6 {
        "6"
    } else if d == 7 {
        "7"
    } else if d == 8 {
        "8"
    } else if d == 9 {
        "9"
    } else if d == 10 {
        "a"
    } else if d == 11 {
        "b"
    } else if d == 12 {
        "c"
    } else if d == 13 {
        "d"
    } else if d == 14 {
        "e"
    } else {
        "f"
    };
    assert(r@ =~= seq![spec_digit_char(d)]);
    r
}

/// The bytes in hexadecimal, two lower-case digits for each.
pub open spec fn spec_hex(bytes: Seq<u8>) -> Seq<char>
    decreases bytes.len(),
{
    if bytes.len() == 0 {
        Seq::empty()
    } else {
        spec_hex(bytes.drop_last()) + seq![
            spec_digit_char(bytes.last() / 16),
            spec_digit_char(bytes.last() % 16),
        ]
    }
}

/// The number in decimal, without leading zeros.
pub open spec fn spec_decimal(n: nat) -> Seq<char>
    decreases n,
{
    if n < 10 {
        seq![spec_digit_char(n as u8)]
    } else {
        spec_decimal(n / 10) + seq![spec_digit_char((n % 10) as u8)]
    }
}

/// The bytes in hexadecimal, two lower-case digits for each.
pub fn to_hex(bytes: &[u8]) -> (r: String)
    ensures
        r@ == spec_hex(bytes@),
{
    let mut out = String::new();
    let mut i: usize = 0;
    assert(bytes@.subrange(0, 0) =~= Seq::<u8>::empty());
    while i < bytes.len()
        invariant
            i <= bytes@.len(),
            out@ == spec_hex(bytes@.subrange(0, i as int)),
        decreases bytes@.len() - i,
    {
        let b = bytes[i];
        out.append(digit_str(b / 16));
        out.append(digit_str(b % 16));
        proof {
            let upto = bytes@.subrange(0, i + 1);
            assert(upto.drop_last() =~= bytes@.subrange(0, i as int));
            assert(out@ =~= spec_hex(upto));
        }
        i += 1;
    }
    assert(bytes@.subrange(0, bytes@.len() as int) =~= bytes@);
    out
}

/// The number in decimal, without leading zeros.
pub fn to_decimal(n: u32) -> (r: String)
    ensures
        r@ == spec_decimal(n as nat),
    decreases n,
{
    if n < 10 {
        String::from_str(digit_str(n as u8))
    } else {
        let mut out = to_decimal(n / 10);
        out.append(digit_str((n % 10) as u8));
        out
    }
}

impl MarfError {
    /// The name of the kind of failure, followed by the cause or the
    /// description where the failure carries one.
    pub open spec fn spec_to_string(&self) -> Seq<char> {
        match self {
            MarfError::IOError(cause) => "IOError: "@ + cause@,
            MarfError::BackingStoreError(cause) => "BackingStoreError: "@ + cause@,
            MarfError::BusyError => "BusyError"@,
            MarfError::CorruptionError(what) => "CorruptionError: "@ + what@,
            MarfError::NotFoundError => "NotFoundError"@,
            MarfError::ExistsError => "ExistsError"@,
            MarfError::ReadOnlyError => "ReadOnlyError"@,
            MarfError::UnconfirmedError => "UnconfirmedError"@,
            MarfError::InProgressError => "InProgressError"@,
            MarfError::RequestedIdentifierForExtensionTrie => "RequestedIdentifierForExtensionTrie"@,
            MarfError::NotOpenedError => "NotOpenedError"@,
        }
    }

    /// The failure as text.
    pub fn to_string(&self) -> (r: String)
        ensures
            r@ == self.spec_to_string(),
    {
        match self {
            MarfError::IOError(cause) => String::from_str("IOError: ").concat(cause.as_str()),
            MarfError::BackingStoreError(cause) => String::from_str("BackingStoreError: ").concat(
                cause.as_str(),
            ),
            MarfError::BusyError => String::from_str("BusyError"),
            MarfError::CorruptionError(what) => String::from_str("CorruptionError: ").concat(
                what.as_str(),
            ),
            MarfError::NotFoundError => String::from_str("NotFoundError"),
            MarfError::ExistsError => String::from_str("ExistsError"),
            MarfError::ReadOnlyError => String::from_str("ReadOnlyError"),
            MarfError::UnconfirmedError => String::from_str("UnconfirmedError"),
            MarfError::InProgressError => String::from_str("InProgressError"),
            MarfError::RequestedIdentifierForExtensionTrie => String::from_str(
                "RequestedIdentifierForExtensionTrie",
            ),
            MarfError::NotOpenedError => String::from_str("NotOpenedError"),
        }
    }
}

/// The line that reports a failure met at a pointer of a block.
pub open spec fn spec_log_line<T: MarfTrieId>(e: MarfError, bhh: T, ptr: TriePtr) -> Seq<char> {
    e.spec_to_string() + " (block "@ + spec_hex(bhh.id_bytes()) + ", ptr id="@ + spec_decimal(ptr.id as nat)
        + " chr="@ + spec_decimal(ptr.chr as nat) + " ptr="@ + spec_decimal(ptr.ptr as nat)
        + " back_block="@ + spec_decimal(ptr.back_block as nat) + ")"@
}

/// The line that reports a failure met at a pointer of a block: the
/// failure as text, the hash of the block in hexadecimal, and the four
/// parts of the pointer in decimal.
pub fn log_line<T: MarfTrieId>(e: &MarfError, bhh: &T, ptr: &TriePtr) -> (r: String)
    ensures
        r@ == spec_log_line(*e, *bhh, *ptr),
{
    let mut out = e.to_string();
    out.append(" (block ");
    out.append(to_hex(bhh.as_bytes().as_slice()).as_str());
    out.append(", ptr id=");
    out.append(to_decimal(ptr.id as u32).as_str());
    out.append(" chr=");
    out.append(to_decimal(ptr.chr as u32).as_str());
    out.append(" ptr=");
    out.append(to_decimal(ptr.ptr).as_str());
    out.append(" back_block=");
    out.append(to_decimal(ptr.back_block).as_str());
    out.append(")");
    out
}

} // verus!
