//! A minimal chat transport library: a self-describing wire framing
//! protocol, an incremental stream decoder, the per-connection dispatch
//! logic with round-trip timing, and the server-side connection registry.
//!
//! All I/O stays outside this crate: callers feed raw bytes in and write
//! the returned frames out themselves.

use vstd::prelude::*;
use vstd::string::StringSliceAdditionalSpecFns;

pub mod peer;
pub mod reader;
pub mod server;
pub mod user;

verus! {

/// Maximum allowed message length
pub const MESSAGE_MAX_LEN: u64 = 0x0001_0000_0000_0000;

/// How to display received messages
#[derive(Debug, Clone, PartialEq, Eq, Structural)]
pub enum Display {
    /// Display data as binary
    Binary,
    /// Display data as utf8 if possible, otherwise as binary
    Utf8,
    /// Don't display data
    Quiet,
}

/// The bytes of "binary".
pub open spec fn binary_name() -> Seq<u8> {
    seq![98u8, 105u8, 110u8, 97u8, 114u8, 121u8]
}

/// The bytes of "utf8".
pub open spec fn utf8_name() -> Seq<u8> {
    seq![117u8, 116u8, 102u8, 56u8]
}

/// The display mode a configuration string selects: "binary" or "utf8"
/// by name, anything else suppresses the data.
pub open spec fn display_of(name: Seq<u8>) -> Display {
    if name == binary_name() {
        Display::Binary
    } else if name == utf8_name() {
        Display::Utf8
    } else {
        Display::Quiet
    }
}

fn bytes_eq(a: &[u8], b: &[u8]) -> (r: bool)
    ensures
        r == (a@ == b@),
{
    if a.len() != b.len() {
        proof {
            assert(a@.len() != b@.len());
        }
        return false;
    }
    let mut i: usize = 0;
    while i < a.len()
        invariant
            0 <= i as int <= a@.len(),
            a@.len() == b@.len(),
            forall|k: int| 0 <= k < i as int ==> a@[k] == b@[k],
        decreases a@.len() - i,
    {
        if a[i] != b[i] {
            return false;
        }
        i = i + 1;
    }
    proof {
        assert(a@ =~= b@);
    }
    true
}

impl Display {
    /// The display mode a configuration string selects.
    pub fn from(s: &str) -> (r: Display)
        ensures
            r == display_of(s.spec_bytes()),
    {
        let bytes = s.as_bytes();
        let mut binary_text: Vec<u8> = Vec::new();
        binary_text.push(98);
        binary_text.push(105);
        binary_text.push(110);
        binary_text.push(97);
        binary_text.push(114);
        binary_text.push(121);
        proof {
            assert(binary_text@ =~= binary_name());
        }
        if bytes_eq(bytes, binary_text.as_slice()) {
            return Display::Binary;
        }
        let mut utf8_text: Vec<u8> = Vec::new();
        utf8_text.push(117);
        utf8_text.push(116);
        utf8_text.push(102);
        utf8_text.push(56);
        proof {
            assert(utf8_text@ =~= utf8_name());
        }
        if bytes_eq(bytes, utf8_text.as_slice()) {
            return Display::Utf8;
        }
        Display::Quiet
    }
}

/// Chat configuration
///
/// The structure is filled once at startup and shared with every
/// connection.
#[derive(Debug, Clone)]
pub struct Config {
    /// Run in client mode
    pub is_client: bool,
    /// Host address/hostname
    pub host: String,
    /// Port
    pub port: u16,
    /// Display mode
    pub display: Display,
}

} // verus!
