//! Connection-level faults, by name.

use crate::text;
use vstd::prelude::*;

verus! {

/// A fault of the connection in place of a response.
#[derive(Clone, Copy, Debug, PartialEq, Eq, Structural)]
#[non_exhaustive]
pub enum TcpFaultKind {
    /// The connection is reset.
    Reset,
    /// The connection is closed without a response byte.
    Empty,
    /// Bytes that are no HTTP are sent, and the connection is closed.
    RandomData,
    /// A status line and a malformed chunked body are sent, and the connection is closed.
    MalformedChunk,
}

/// The fault a configured name stands for: its canonical name or an alias.
pub open spec fn fault_named(name: Seq<char>) -> Option<TcpFaultKind> {
    if name == "reset"@ || name == "CONNECTION_RESET_BY_PEER"@ {
        Some(TcpFaultKind::Reset)
    } else if name == "empty"@ || name == "EMPTY_RESPONSE"@ {
        Some(TcpFaultKind::Empty)
    } else if name == "garbage"@ || name == "random"@ || name == "RANDOM_DATA_THEN_CLOSE"@ {
        Some(TcpFaultKind::RandomData)
    } else if name == "malformed"@ || name == "MALFORMED_RESPONSE_CHUNK"@ {
        Some(TcpFaultKind::MalformedChunk)
    } else {
        None
    }
}

impl TcpFaultKind {
    /// The canonical name of the fault.
    pub open spec fn name(self) -> Seq<char> {
        match self {
            TcpFaultKind::Reset => "CONNECTION_RESET_BY_PEER"@,
            TcpFaultKind::Empty => "EMPTY_RESPONSE"@,
            TcpFaultKind::RandomData => "RANDOM_DATA_THEN_CLOSE"@,
            TcpFaultKind::MalformedChunk => "MALFORMED_RESPONSE_CHUNK"@,
        }
    }

    /// The fault a configured name stands for.
    #[must_use]
    pub fn parse(value: &str) -> (r: Option<Self>)
        ensures
            r == fault_named(value@),
    {
        if text::same_text(value, "reset") || text::same_text(value, "CONNECTION_RESET_BY_PEER") {
            Some(TcpFaultKind::Reset)
        } else if text::same_text(value, "empty") || text::same_text(value, "EMPTY_RESPONSE") {
            Some(TcpFaultKind::Empty)
        } else if text::same_text(value, "garbage") || text::same_text(value, "random")
            || text::same_text(value, "RANDOM_DATA_THEN_CLOSE") {
            Some(TcpFaultKind::RandomData)
        } else if text::same_text(value, "malformed") || text::same_text(
            value,
            "MALFORMED_RESPONSE_CHUNK",
        ) {
            Some(TcpFaultKind::MalformedChunk)
        } else {
            None
        }
    }

    /// The canonical name of the fault: one per fault, whatever alias configured it.
    #[must_use]
    pub fn canonical_name(self) -> (r: &'static str)
        ensures
            r@ == self.name(),
    {
        match self {
            TcpFaultKind::Reset => "CONNECTION_RESET_BY_PEER",
            TcpFaultKind::Empty => "EMPTY_RESPONSE",
            TcpFaultKind::RandomData => "RANDOM_DATA_THEN_CLOSE",
            TcpFaultKind::MalformedChunk => "MALFORMED_RESPONSE_CHUNK",
        }
    }

    /// The text that is written to the connection before it is closed, for a fault that writes
    /// one.
    pub open spec fn written_text(self) -> Option<Seq<char>> {
        match self {
            TcpFaultKind::MalformedChunk => Some(
                "HTTP/1.1 200 OK\r\nTransfer-Encoding: chunked\r\n\r\nZZZZZ not a valid chunk size\r\n"@,
            ),
            _ => None,
        }
    }

    /// The bytes that are written to the connection before it is closed.
    pub open spec fn written(self) -> Seq<u8> {
        match self {
            TcpFaultKind::RandomData => seq![
                0x00u8, 0xff, 0xfe, 0xfd, 0x13, 0x37, 0xde, 0xad, 0xbe, 0xef,
            ],
            _ => match self.written_text() {
                Some(t) => vstd::utf8::encode_utf8(t),
                None => Seq::empty(),
            },
        }
    }

    /// The bytes that are written to the connection before it is closed.
    pub fn raw_bytes(self) -> (r: Vec<u8>)
        ensures
            r@ == self.written(),
    {
        match self {
            TcpFaultKind::RandomData => vec![
                0x00u8, 0xff, 0xfe, 0xfd, 0x13, 0x37, 0xde, 0xad, 0xbe, 0xef,
            ],
            TcpFaultKind::MalformedChunk => bytes_of(
                "HTTP/1.1 200 OK\r\nTransfer-Encoding: chunked\r\n\r\nZZZZZ not a valid chunk size\r\n",
            ),
            _ => Vec::new(),
        }
    }

    /// Whether the connection is reset rather than closed.
    pub fn resets(self) -> (r: bool)
        ensures
            r == (self is Reset),
    {
        match self {
            TcpFaultKind::Reset => true,
            _ => false,
        }
    }
}

/// The bytes of a text.
pub fn bytes_of(s: &str) -> (r: Vec<u8>)
    ensures
        r@ == vstd::utf8::encode_utf8(s@),
{
    let bytes: &[u8] = s.as_bytes();
    let mut out: Vec<u8> = Vec::new();
    let mut i: usize = 0;
    while i < bytes.len()
        invariant
            i <= bytes@.len(),
            out@ == bytes@.take(i as int),
        decreases bytes@.len() - i,
    {
        out.push(bytes[i]);
        i += 1;
        proof {
            assert(out@ =~= bytes@.take(i as int));
        }
    }
    proof {
        assert(bytes@.take(bytes@.len() as int) =~= bytes@);
    }
    out
}

proof fn lemma_names_apart()
    ensures
        "CONNECTION_RESET_BY_PEER"@ != "EMPTY_RESPONSE"@,
        "CONNECTION_RESET_BY_PEER"@ != "RANDOM_DATA_THEN_CLOSE"@,
        "CONNECTION_RESET_BY_PEER"@ != "MALFORMED_RESPONSE_CHUNK"@,
        "EMPTY_RESPONSE"@ != "RANDOM_DATA_THEN_CLOSE"@,
        "EMPTY_RESPONSE"@ != "MALFORMED_RESPONSE_CHUNK"@,
        "RANDOM_DATA_THEN_CLOSE"@ != "MALFORMED_RESPONSE_CHUNK"@,
        "reset"@.len() == 5,
        "empty"@.len() == 5,
        "garbage"@.len() == 7,
        "random"@.len() == 6,
        "malformed"@.len() == 9,
        "CONNECTION_RESET_BY_PEER"@.len() == 24,
        "EMPTY_RESPONSE"@.len() == 14,
        "RANDOM_DATA_THEN_CLOSE"@.len() == 22,
        "MALFORMED_RESPONSE_CHUNK"@.len() == 24,
{
    reveal_strlit("reset");
    reveal_strlit("empty");
    reveal_strlit("garbage");
    reveal_strlit("random");
    reveal_strlit("malformed");
    reveal_strlit("CONNECTION_RESET_BY_PEER");
    reveal_strlit("EMPTY_RESPONSE");
    reveal_strlit("RANDOM_DATA_THEN_CLOSE");
    reveal_strlit("MALFORMED_RESPONSE_CHUNK");
    assert("EMPTY_RESPONSE"@.len() == 14);
    assert("RANDOM_DATA_THEN_CLOSE"@.len() == 22);
    assert("CONNECTION_RESET_BY_PEER"@.len() == 24);
    assert("CONNECTION_RESET_BY_PEER"@[0] != "MALFORMED_RESPONSE_CHUNK"@[0]);
}

/// The canonical name of a fault stands for that fault.
pub proof fn law_canonical_names_read_back(kind: TcpFaultKind)
    ensures
        fault_named(kind.name()) == Some(kind),
{
    lemma_names_apart();
}

/// No two faults share a canonical name.
pub proof fn law_canonical_names_are_distinct(a: TcpFaultKind, b: TcpFaultKind)
    requires
        a.name() == b.name(),
    ensures
        a == b,
{
    lemma_names_apart();
}

/// A fault is known by its canonical name, exactly as spelled, and by its short names, and by no
/// other.
pub proof fn law_faults_are_known_by_their_names(name: Seq<char>, kind: TcpFaultKind)
    ensures
        fault_named("reset"@) == Some(TcpFaultKind::Reset),
        fault_named("empty"@) == Some(TcpFaultKind::Empty),
        fault_named("garbage"@) == Some(TcpFaultKind::RandomData),
        fault_named("random"@) == Some(TcpFaultKind::RandomData),
        fault_named("malformed"@) == Some(TcpFaultKind::MalformedChunk),
        fault_named(name) == Some(kind) ==> name == kind.name() || (match kind {
            TcpFaultKind::Reset => name == "reset"@,
            TcpFaultKind::Empty => name == "empty"@,
            TcpFaultKind::RandomData => name == "garbage"@ || name == "random"@,
            TcpFaultKind::MalformedChunk => name == "malformed"@,
        }),
{
    lemma_names_apart();
    reveal_strlit("reset");
    reveal_strlit("empty");
    assert("reset"@[0] != "empty"@[0]);
}

/// A fault that only ends the connection writes nothing; the others write something first.
pub proof fn law_only_two_faults_write(kind: TcpFaultKind)
    ensures
        kind == TcpFaultKind::Reset || kind == TcpFaultKind::Empty ==> kind.written().len() == 0,
        kind == TcpFaultKind::RandomData ==> kind.written().len() == 10,
        kind == TcpFaultKind::MalformedChunk ==> kind.written() == vstd::utf8::encode_utf8(
            "HTTP/1.1 200 OK\r\nTransfer-Encoding: chunked\r\n\r\nZZZZZ not a valid chunk size\r\n"@,
        ),
{
}

} // verus!
