use vstd::prelude::*;
use vstd::string::{StringExecFns, StringSliceAdditionalSpecFns};
use vstd::utf8::{decode_utf8, valid_utf8};

use crate::parser::{all_digits, digits_value, read_digits, string_from_utf8};

verus! {

/// Whether the process accepts writes or follows a leader.
#[derive(Clone, Copy, Debug, PartialEq, Eq, Structural)]
pub enum ServerRole {
    Leader,
    Follower,
}

/// The process's replication settings and its count of attached followers.
pub struct ServerConfig {
    pub role: ServerRole,
    pub master_replid: String,
    pub master_repl_offset: u32,
    pub listener_port: u16,
    pub replication_clients: u16,
}

impl ServerConfig {
    /// A configuration with the fixed replication id, offset zero and no followers.
    pub fn new(role: ServerRole, listener_port: u16) -> (r: ServerConfig)
        ensures
            r.role == role,
            r.master_replid@ == "8371b4fb1155b71f4a04d3e1bc3e18c4a990aeeb"@,
            r.master_repl_offset == 0,
            r.listener_port == listener_port,
            r.replication_clients == 0,
    {
        ServerConfig {
            role,
            master_replid: String::from_str("8371b4fb1155b71f4a04d3e1bc3e18c4a990aeeb"),
            master_repl_offset: 0,
            listener_port,
            replication_clients: 0,
        }
    }

    /// Counts one more attached follower; the count stays at its maximum.
    pub fn add_replication_client(&mut self)
        ensures
            final(self).replication_clients == if old(self).replication_clients < u16::MAX {
                (old(self).replication_clients + 1) as u16
            } else {
                old(self).replication_clients
            },
            final(self).role == old(self).role,
            final(self).master_replid == old(self).master_replid,
            final(self).master_repl_offset == old(self).master_repl_offset,
            final(self).listener_port == old(self).listener_port,
    {
        if self.replication_clients < u16::MAX {
            self.replication_clients = self.replication_clients + 1;
        }
    }

    /// Counts one follower less; the count stays at zero.
    pub fn remove_replication_client(&mut self)
        ensures
            final(self).replication_clients == if old(self).replication_clients > 0 {
                (old(self).replication_clients - 1) as u16
            } else {
                0
            },
            final(self).role == old(self).role,
            final(self).master_replid == old(self).master_replid,
            final(self).master_repl_offset == old(self).master_repl_offset,
            final(self).listener_port == old(self).listener_port,
    {
        if self.replication_clients > 0 {
            self.replication_clients = self.replication_clients - 1;
        }
    }

    /// The number of attached followers.
    pub fn active_replication_clients(&self) -> (r: u16)
        ensures
            r == self.replication_clients,
    {
        self.replication_clients
    }
}


/// Why a leader address was refused.
#[derive(Debug, Clone, Copy, PartialEq, Eq, Structural)]
pub enum AddrError {
    /// The text is not exactly two whitespace-separated tokens.
    WrongTokenCount,
    /// The host is not valid UTF-8.
    InvalidHost,
    /// The port is not a number from 0 to 65535.
    InvalidPort,
}

/// ASCII whitespace: space, tab, line feed, vertical tab, form feed, carriage return.
pub open spec fn is_space(c: u8) -> bool {
    c == 32 || (9 <= c <= 13)
}

/// The first position at or after `i` that holds no whitespace, or the end.
pub open spec fn skip_space(s: Seq<u8>, i: int) -> int
    decreases s.len() - i,
{
    if i < 0 || i >= s.len() || !is_space(s[i]) {
        i
    } else {
        skip_space(s, i + 1)
    }
}

/// The first position at or after `i` that holds whitespace, or the end.
pub open spec fn skip_word(s: Seq<u8>, i: int) -> int
    decreases s.len() - i,
{
    if i < 0 || i >= s.len() || is_space(s[i]) {
        i
    } else {
        skip_word(s, i + 1)
    }
}

/// A port: an optional plus sign, then one or more digits, at most 65535.
pub open spec fn port_field(t: Seq<u8>) -> Option<nat> {
    let d = if t.len() > 0 && t[0] == 43 {
        t.drop_first()
    } else {
        t
    };
    if d.len() > 0 && all_digits(d) && digits_value(d) <= 65535 {
        Some(digits_value(d))
    } else {
        None
    }
}

/// The host and port that a `host port` text names.
pub open spec fn leader_addr(s: Seq<u8>) -> Result<(Seq<u8>, nat), AddrError> {
    let a = skip_space(s, 0);
    let b = skip_word(s, a);
    let c = skip_space(s, b);
    let d = skip_word(s, c);
    let e = skip_space(s, d);
    if a == s.len() || c == s.len() || e != s.len() {
        Err(AddrError::WrongTokenCount)
    } else {
        match port_field(s.subrange(c, d)) {
            None => Err(AddrError::InvalidPort),
            Some(p) => Ok((s.subrange(a, b), p)),
        }
    }
}

fn skip_space_at(s: &[u8], i: usize) -> (r: usize)
    requires
        i <= s@.len(),
    ensures
        r as int == skip_space(s@, i as int),
        i <= r <= s@.len(),
{
    let mut j: usize = i;
    while j < s.len() && (s[j] == 32u8 || (s[j] >= 9u8 && s[j] <= 13u8))
        invariant
            i <= j <= s@.len(),
            skip_space(s@, i as int) == skip_space(s@, j as int),
        decreases s@.len() - j,
    {
        j = j + 1;
    }
    j
}

fn skip_word_at(s: &[u8], i: usize) -> (r: usize)
    requires
        i <= s@.len(),
    ensures
        r as int == skip_word(s@, i as int),
        i <= r <= s@.len(),
{
    let mut j: usize = i;
    while j < s.len() && !(s[j] == 32u8 || (s[j] >= 9u8 && s[j] <= 13u8))
        invariant
            i <= j <= s@.len(),
            skip_word(s@, i as int) == skip_word(s@, j as int),
        decreases s@.len() - j,
    {
        j = j + 1;
    }
    j
}

/// The port in `s[from..to]`.
fn read_port(s: &[u8], from: usize, to: usize) -> (r: Option<u16>)
    requires
        from <= to <= s@.len(),
    ensures
        match r {
            Some(p) => port_field(s@.subrange(from as int, to as int)) == Some(p as nat),
            None => port_field(s@.subrange(from as int, to as int)) is None,
        },
{
    let ghost t = s@.subrange(from as int, to as int);
    let start = if from < to && s[from] == 43u8 {
        from + 1
    } else {
        from
    };
    proof {
        if from < to && s@[from as int] == 43 {
            assert(t.drop_first() =~= s@.subrange(start as int, to as int));
        } else {
            assert(t =~= s@.subrange(start as int, to as int));
        }
    }
    if start == to {
        return None;
    }
    match read_digits(s, start, to) {
        Some(v) => if v <= 65535 {
            Some(v as u16)
        } else {
            None
        },
        None => None,
    }
}

/// The host and port that a `host port` text names.
pub fn parse_leader_addr(text: &str) -> (r: Result<(String, u16), AddrError>)
    ensures
        match leader_addr(text.spec_bytes()) {
            Ok((h, p)) => if valid_utf8(h) {
                r is Ok && r->Ok_0.0@ == decode_utf8(h) && r->Ok_0.1 as nat == p
            } else {
                r == Err::<(String, u16), AddrError>(AddrError::InvalidHost)
            },
            Err(e) => r == Err::<(String, u16), AddrError>(e),
        },
{
    let s = text.as_bytes();
    let a = skip_space_at(s, 0);
    let b = skip_word_at(s, a);
    let c = skip_space_at(s, b);
    let d = skip_word_at(s, c);
    let e = skip_space_at(s, d);
    if a == s.len() || c == s.len() || e != s.len() {
        return Err(AddrError::WrongTokenCount);
    }
    let port = match read_port(s, c, d) {
        Some(p) => p,
        None => {
            return Err(AddrError::InvalidPort);
        },
    };
    let host_bytes = crate::parser::copy_bytes(vstd::slice::slice_subrange(s, a, b));
    match string_from_utf8(host_bytes) {
        Some(host) => Ok((host, port)),
        None => Err(AddrError::InvalidHost),
    }
}

} // verus!
