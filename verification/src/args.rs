//! The configuration, as it is given in text, and what it says.

use vstd::prelude::*;
use crate::sampler::SAMPLING_SECONDS;
use crate::text::{
    chars_of, is_numeral, numeral_value, read_numeral, read_numeral_spec, trim_chars, trimmed,
    Numeral,
};

verus! {

/// The configuration in text: each field is read when it is needed.
#[derive(Debug)]
pub struct Args {
    /// Network interface to attach the classifier to.
    pub iface: String,
    /// Comma-separated ports to collect data for. 0 means all ports.
    pub ports: String,
    /// Aggregation window in seconds: a positive multiple of the seconds
    /// between two ticks of the sampler.
    pub window: String,
    /// Port to serve the metrics on.
    pub server_port: String,
    /// Whether to serve the list of flows.
    pub serve_ip_list: bool,
}

/// Why a field of the configuration is refused.
#[derive(PartialEq, Eq, Structural, Clone, Copy, Debug)]
pub enum ArgsError {
    /// An entry of the port list is no numeral.
    MalformedPortList,
    /// An entry of the port list is a numeral above 65535.
    InvalidPort,
    /// The window is no numeral, or one above 2^64 - 1.
    InvalidWindow,
    /// The window is zero or no multiple of the seconds between two ticks.
    WindowNotMultiple,
    /// The server port is no numeral, or one above 65535.
    InvalidServerPort,
}

/// The ports of an allow-list as a sequence, where there is a list.
pub open spec fn ports_view(custom_ports: Option<Vec<u16>>) -> Option<Seq<u16>> {
    match custom_ports {
        Some(ports) => Some(ports@),
        None => None,
    }
}

/// The place of the first comma, or the length of the text where it holds
/// none.
pub open spec fn first_comma(s: Seq<char>) -> int
    decreases s.len(),
{
    if s.len() == 0 || s[0] == ',' {
        0
    } else {
        1 + first_comma(s.drop_first())
    }
}

/// The ports of a comma-separated list of numerals, or the error of the
/// first entry that is no port.
pub open spec fn port_list(s: Seq<char>) -> Result<Seq<u16>, ArgsError>
    decreases s.len(),
    via port_list_decreases
{
    let i = first_comma(s);
    let head = s.take(i);
    if !is_numeral(head) {
        Err(ArgsError::MalformedPortList)
    } else if numeral_value(head) > u16::MAX {
        Err(ArgsError::InvalidPort)
    } else if i == s.len() {
        Ok(seq![numeral_value(head) as u16])
    } else {
        match port_list(s.skip(i + 1)) {
            Ok(rest) => Ok(seq![numeral_value(head) as u16] + rest),
            Err(e) => Err(e),
        }
    }
}

#[via_fn]
proof fn port_list_decreases(s: Seq<char>) {
    lemma_first_comma_bounds(s);
}

/// The first comma stands within the text or at its end.
pub proof fn lemma_first_comma_bounds(s: Seq<char>)
    ensures
        0 <= first_comma(s) <= s.len(),
    decreases s.len(),
{
    if !(s.len() == 0 || s[0] == ',') {
        lemma_first_comma_bounds(s.drop_first());
    }
}

/// What the port list says. White space around it does not count. An empty
/// list and the list of the single port 0 say that all ports are counted;
/// any other list names the ports that are counted, in its order.
pub open spec fn custom_ports_spec(ports: Seq<char>) -> Result<Option<Seq<u16>>, ArgsError> {
    let inner = trimmed(ports);
    if inner.len() == 0 {
        Ok(None)
    } else {
        match port_list(inner) {
            Err(e) => Err(e),
            Ok(list) => if list.len() == 1 && list[0] == 0 {
                Ok(None)
            } else {
                Ok(Some(list))
            },
        }
    }
}

/// What the window says: its seconds, where it is a numeral that is a
/// positive multiple of the seconds between two ticks. White space around
/// it does not count.
pub open spec fn window_spec(window: Seq<char>) -> Result<u64, ArgsError> {
    let inner = trimmed(window);
    if !is_numeral(inner) || numeral_value(inner) > u64::MAX {
        Err(ArgsError::InvalidWindow)
    } else if numeral_value(inner) == 0 || numeral_value(inner) % (SAMPLING_SECONDS as nat) != 0 {
        Err(ArgsError::WindowNotMultiple)
    } else {
        Ok(numeral_value(inner) as u64)
    }
}

/// What the server port says: the port, where it is a numeral of at most
/// 65535. White space around it does not count.
pub open spec fn server_port_spec(server_port: Seq<char>) -> Result<u16, ArgsError> {
    let inner = trimmed(server_port);
    if !is_numeral(inner) || numeral_value(inner) > u16::MAX {
        Err(ArgsError::InvalidServerPort)
    } else {
        Ok(numeral_value(inner) as u16)
    }
}

/// The first comma of a text stands where a comma stands that no comma
/// comes before, or at the end of a text without commas.
pub proof fn lemma_first_comma(s: Seq<char>, k: int)
    requires
        0 <= k <= s.len(),
        forall|j: int| 0 <= j < k ==> s[j] != ',',
        k == s.len() || s[k] == ',',
    ensures
        first_comma(s) == k,
    decreases k,
{
    if k > 0 {
        assert(s[0] != ',');
        let rest = s.drop_first();
        assert forall|j: int| 0 <= j < k - 1 implies rest[j] != ',' by {
            assert(rest[j] == s[j + 1]);
        }
        lemma_first_comma(rest, k - 1);
    }
}

/// A list read so far, followed by what the rest of the text says.
pub open spec fn followed_by(read: Seq<u16>, rest: Result<Seq<u16>, ArgsError>) -> Result<
    Seq<u16>,
    ArgsError,
> {
    match rest {
        Ok(list) => Ok(read + list),
        Err(e) => Err(e),
    }
}

/// Reads a comma-separated list of ports.
#[verifier::loop_isolation(false)]
fn read_port_list(chars: &Vec<char>) -> (r: Result<Vec<u16>, ArgsError>)
    ensures
        match r {
            Ok(list) => port_list(chars@) == Ok::<Seq<u16>, ArgsError>(list@),
            Err(e) => port_list(chars@) == Err::<Seq<u16>, ArgsError>(e),
        },
{
    let mut ports: Vec<u16> = Vec::new();
    let mut start: usize = 0;
    assert(chars@.skip(0) =~= chars@);
    assert(Seq::<u16>::empty() + port_list(chars@)->Ok_0 =~= port_list(chars@)->Ok_0);
    loop
        invariant
            start <= chars@.len(),
            port_list(chars@) == followed_by(ports@, port_list(chars@.skip(start as int))),
        decreases chars@.len() - start,
    {
        let mut end: usize = start;
        while end < chars.len() && chars[end] != ','
            invariant
                start <= end <= chars@.len(),
                forall|j: int| start <= j < end ==> chars@[j] != ',',
            decreases chars@.len() - end,
        {
            end += 1;
        }
        let ghost rest = chars@.skip(start as int);
        proof {
            assert forall|j: int| 0 <= j < end - start implies rest[j] != ',' by {
                assert(rest[j] == chars@[start + j]);
            }
            lemma_first_comma(rest, end - start);
            assert(rest.take(end - start) =~= chars@.subrange(start as int, end as int));
        }
        match read_numeral(chars, start, end, u16::MAX as u64) {
            Numeral::Malformed => {
                return Err(ArgsError::MalformedPortList);
            },
            Numeral::TooLarge => {
                return Err(ArgsError::InvalidPort);
            },
            Numeral::Value(port) => {
                let ghost before = ports@;
                ports.push(port as u16);
                if end == chars.len() {
                    assert(before + seq![port as u16] =~= ports@);
                    return Ok(ports);
                }
                proof {
                    assert(rest.skip(end - start + 1) =~= chars@.skip(end + 1));
                    let tail = port_list(chars@.skip(end + 1));
                    if tail is Ok {
                        assert(before + (seq![port as u16] + tail->Ok_0) =~= ports@
                            + tail->Ok_0);
                    }
                }
                start = end + 1;
            },
        }
    }
}

impl Args {
    /// Reads the port list, or says why it is refused.
    pub fn checked_custom_ports(&self) -> (r: Result<Option<Vec<u16>>, ArgsError>)
        ensures
            match r {
                Ok(ports) => custom_ports_spec(self.ports@) == Ok::<Option<Seq<u16>>, ArgsError>(
                    ports_view(ports),
                ),
                Err(e) => custom_ports_spec(self.ports@) == Err::<Option<Seq<u16>>, ArgsError>(e),
            },
    {
        let chars = chars_of(self.ports.as_str());
        let inner = trim_chars(&chars);
        if inner.len() == 0 {
            return Ok(None);
        }
        match read_port_list(&inner) {
            Err(e) => Err(e),
            Ok(ports) => {
                if ports.len() == 1 && ports[0] == 0 {
                    Ok(None)
                } else {
                    Ok(Some(ports))
                }
            },
        }
    }

    /// Reads the window, or says why it is refused.
    pub fn checked_window(&self) -> (r: Result<u64, ArgsError>)
        ensures
            r == window_spec(self.window@),
    {
        let chars = chars_of(self.window.as_str());
        let inner = trim_chars(&chars);
        assert(inner@.subrange(0, inner@.len() as int) =~= inner@);
        match read_numeral(&inner, 0, inner.len(), u64::MAX) {
            Numeral::Value(window) => {
                if window == 0 || window % SAMPLING_SECONDS != 0 {
                    Err(ArgsError::WindowNotMultiple)
                } else {
                    Ok(window)
                }
            },
            _ => Err(ArgsError::InvalidWindow),
        }
    }

    /// Reads the server port, or says why it is refused.
    pub fn checked_server_port(&self) -> (r: Result<u16, ArgsError>)
        ensures
            r == server_port_spec(self.server_port@),
    {
        let chars = chars_of(self.server_port.as_str());
        let inner = trim_chars(&chars);
        assert(inner@.subrange(0, inner@.len() as int) =~= inner@);
        match read_numeral(&inner, 0, inner.len(), u16::MAX as u64) {
            Numeral::Value(port) => Ok(port as u16),
            _ => Err(ArgsError::InvalidServerPort),
        }
    }

    /// The ports to collect data for, or nothing where all ports are
    /// counted. The port list has to be one that is not refused.
    pub fn parse_custom_ports(&self) -> (ports: Option<Vec<u16>>)
        requires
            custom_ports_spec(self.ports@) is Ok,
        ensures
            custom_ports_spec(self.ports@) == Ok::<Option<Seq<u16>>, ArgsError>(ports_view(ports)),
    {
        match self.checked_custom_ports() {
            Ok(ports) => ports,
            Err(_) => None,
        }
    }

    /// The aggregation window in seconds. The window has to be one that is
    /// not refused.
    pub fn parse_window(&self) -> (window: u64)
        requires
            window_spec(self.window@) is Ok,
        ensures
            window_spec(self.window@) == Ok::<u64, ArgsError>(window),
            window > 0,
            window % SAMPLING_SECONDS == 0,
    {
        match self.checked_window() {
            Ok(window) => window,
            Err(_) => SAMPLING_SECONDS,
        }
    }

    /// The port to serve the metrics on. The server port has to be one that
    /// is not refused.
    pub fn parse_server_port(&self) -> (port: u16)
        requires
            server_port_spec(self.server_port@) is Ok,
        ensures
            server_port_spec(self.server_port@) == Ok::<u16, ArgsError>(port),
    {
        match self.checked_server_port() {
            Ok(port) => port,
            Err(_) => 0,
        }
    }
}

} // verus!
