//! The control-channel command protocol: one command per text line, encoded
//! as a tagged JSON-style value. The accepted grammar is an object with the
//! single tag `SetWifiConfig` whose payload is an object holding exactly the
//! members `ssid` and `password` (in either order), both strings. Strings
//! admit the escapes `\" \\ \/ \b \f \n \r \t`; whitespace may stand between
//! tokens; nothing may follow the closing brace.

use vstd::prelude::*;

use vstd::string::StringSliceAdditionalSpecFns;
use vstd::utf8::{decode_utf8, valid_utf8};

use crate::config::{spec_encode_config, wifi_config_key, ConfigError, WifiConfig};
use crate::store::{bytes_eq, ConfigStore};
use crate::text::bytes_as_str;

verus! {

/// A command arriving over the control channel.
#[derive(Debug)]
pub enum Command {
    SetWifiConfig(WifiConfig),
}

/// A line that does not decode to a command.
#[derive(Debug, PartialEq, Eq, Structural)]
pub enum CommandError {
    Malformed,
}

/// JSON whitespace.
pub open spec fn is_ws(b: u8) -> bool {
    b == 0x20 || b == 0x09 || b == 0x0a || b == 0x0d
}

/// First index at or after `i` holding a non-whitespace byte (or the end).
pub open spec fn skip_ws(bytes: Seq<u8>, i: int) -> int
    decreases bytes.len() - i,
{
    if 0 <= i < bytes.len() && is_ws(bytes[i]) {
        skip_ws(bytes, i + 1)
    } else {
        i
    }
}

/// What a string escape character stands for.
pub open spec fn unescape(b: u8) -> Option<u8> {
    if b == 0x22 {
        Some(0x22u8)
    } else if b == 0x5c {
        Some(0x5cu8)
    } else if b == 0x2f {
        Some(0x2fu8)
    } else if b == 0x62 {
        Some(0x08u8)
    } else if b == 0x66 {
        Some(0x0cu8)
    } else if b == 0x6e {
        Some(0x0au8)
    } else if b == 0x72 {
        Some(0x0du8)
    } else if b == 0x74 {
        Some(0x09u8)
    } else {
        None
    }
}

/// Parse a string's content starting just after its opening quote: the
/// unescaped bytes and the index just past the closing quote. Unescaped
/// control bytes and unknown escapes are rejected.
pub open spec fn parse_string_body(bytes: Seq<u8>, i: int) -> Option<(Seq<u8>, int)>
    decreases bytes.len() - i,
{
    if i < 0 || i >= bytes.len() {
        None
    } else if bytes[i] == 0x22 {
        Some((Seq::empty(), i + 1))
    } else if bytes[i] == 0x5c {
        if i + 2 > bytes.len() {
            None
        } else {
            match unescape(bytes[i + 1]) {
                Some(c) => match parse_string_body(bytes, i + 2) {
                    Some(r) => Some((seq![c] + r.0, r.1)),
                    None => None,
                },
                None => None,
            }
        }
    } else if bytes[i] < 0x20 {
        None
    } else {
        match parse_string_body(bytes, i + 1) {
            Some(r) => Some((seq![bytes[i]] + r.0, r.1)),
            None => None,
        }
    }
}

/// Parse a quoted string at `i`.
pub open spec fn parse_string(bytes: Seq<u8>, i: int) -> Option<(Seq<u8>, int)> {
    if 0 <= i < bytes.len() && bytes[i] == 0x22 {
        parse_string_body(bytes, i + 1)
    } else {
        None
    }
}

/// Parse one `"key" : "value"` member, whitespace allowed around tokens:
/// the key's bytes, the value's bytes, and the index just past the value.
pub open spec fn parse_member(bytes: Seq<u8>, i: int) -> Option<(Seq<u8>, Seq<u8>, int)> {
    match parse_string(bytes, skip_ws(bytes, i)) {
        Some(k) => {
            let j = skip_ws(bytes, k.1);
            if j < bytes.len() && bytes[j] == 0x3a {
                match parse_string(bytes, skip_ws(bytes, j + 1)) {
                    Some(v) => Some((k.0, v.0, v.1)),
                    None => None,
                }
            } else {
                None
            }
        },
        None => None,
    }
}

/// The bytes of the command tag `SetWifiConfig`.
pub open spec fn set_wifi_tag() -> Seq<u8> {
    seq![83u8, 101u8, 116u8, 87u8, 105u8, 102u8, 105u8, 67u8, 111u8, 110u8, 102u8, 105u8, 103u8]
}

/// The bytes of the member key `ssid`.
pub open spec fn ssid_key() -> Seq<u8> {
    seq![115u8, 115u8, 105u8, 100u8]
}

/// The bytes of the member key `password`.
pub open spec fn password_key() -> Seq<u8> {
    seq![112u8, 97u8, 115u8, 115u8, 119u8, 111u8, 114u8, 100u8]
}

/// Pair the two members up as (ssid, password); the keys must be exactly
/// `ssid` and `password`, in either order.
pub open spec fn assign_fields(k1: Seq<u8>, v1: Seq<u8>, k2: Seq<u8>, v2: Seq<u8>) -> Option<
    (Seq<u8>, Seq<u8>),
> {
    if k1 == ssid_key() && k2 == password_key() {
        Some((v1, v2))
    } else if k1 == password_key() && k2 == ssid_key() {
        Some((v2, v1))
    } else {
        None
    }
}

/// Parse a whole command line: the raw (still escaped-resolved, not yet
/// UTF-8-checked) bytes of the ssid and the password.
pub open spec fn spec_parse_command(bytes: Seq<u8>) -> Option<(Seq<u8>, Seq<u8>)> {
    let i0 = skip_ws(bytes, 0);
    if !(i0 < bytes.len() && bytes[i0] == 0x7b) {
        None
    } else {
        match parse_string(bytes, skip_ws(bytes, i0 + 1)) {
            Some(tag) => {
                if tag.0 != set_wifi_tag() {
                    None
                } else {
                    let j0 = skip_ws(bytes, tag.1);
                    if !(j0 < bytes.len() && bytes[j0] == 0x3a) {
                        None
                    } else {
                        let j1 = skip_ws(bytes, j0 + 1);
                        if !(j1 < bytes.len() && bytes[j1] == 0x7b) {
                            None
                        } else {
                            spec_parse_payload(bytes, j1 + 1)
                        }
                    }
                }
            },
            None => None,
        }
    }
}

/// Parse the payload object's members and the two closing braces, starting
/// just after the payload's opening brace.
pub open spec fn spec_parse_payload(bytes: Seq<u8>, i: int) -> Option<(Seq<u8>, Seq<u8>)> {
    match parse_member(bytes, i) {
        Some(m1) => {
            let c = skip_ws(bytes, m1.2);
            if !(c < bytes.len() && bytes[c] == 0x2c) {
                None
            } else {
                match parse_member(bytes, c + 1) {
                    Some(m2) => {
                        let e1 = skip_ws(bytes, m2.2);
                        if !(e1 < bytes.len() && bytes[e1] == 0x7d) {
                            None
                        } else {
                            let e2 = skip_ws(bytes, e1 + 1);
                            if !(e2 < bytes.len() && bytes[e2] == 0x7d) {
                                None
                            } else if skip_ws(bytes, e2 + 1) != bytes.len() {
                                None
                            } else {
                                assign_fields(m1.0, m1.1, m2.0, m2.1)
                            }
                        }
                    },
                    None => None,
                }
            }
        },
        None => None,
    }
}

/// What a command line means: the ssid and password as text, provided both
/// are valid UTF-8 after unescaping.
pub open spec fn spec_command_of_line(bytes: Seq<u8>) -> Option<(Seq<char>, Seq<char>)> {
    match spec_parse_command(bytes) {
        Some(r) => {
            if valid_utf8(r.0) && valid_utf8(r.1) {
                Some((decode_utf8(r.0), decode_utf8(r.1)))
            } else {
                None
            }
        },
        None => None,
    }
}

fn skip_ws_exec(bytes: &[u8], i: usize) -> (r: usize)
    requires
        i <= bytes@.len(),
    ensures
        r == skip_ws(bytes@, i as int),
        i <= r <= bytes@.len(),
{
    let mut j = i;
    while j < bytes.len() && (bytes[j] == 0x20 || bytes[j] == 0x09 || bytes[j] == 0x0a || bytes[j]
        == 0x0d)
        invariant
            i <= j <= bytes@.len(),
            skip_ws(bytes@, i as int) == skip_ws(bytes@, j as int),
        decreases bytes@.len() - j,
    {
        j = j + 1;
    }
    j
}

fn unescape_exec(b: u8) -> (r: Option<u8>)
    ensures
        r == unescape(b),
{
    if b == 0x22 {
        Some(0x22)
    } else if b == 0x5c {
        Some(0x5c)
    } else if b == 0x2f {
        Some(0x2f)
    } else if b == 0x62 {
        Some(0x08)
    } else if b == 0x66 {
        Some(0x0c)
    } else if b == 0x6e {
        Some(0x0a)
    } else if b == 0x72 {
        Some(0x0d)
    } else if b == 0x74 {
        Some(0x09)
    } else {
        None
    }
}

/// Relates an accumulated prefix to the rest of a string body parse.
spec fn body_step(bytes: Seq<u8>, start: int, acc: Seq<u8>, i: int) -> bool {
    parse_string_body(bytes, start) == (match parse_string_body(bytes, i) {
        Some(r) => Some((acc + r.0, r.1)),
        None => None,
    })
}

#[verifier::loop_isolation(false)]
fn parse_string_at(bytes: &[u8], at: usize) -> (r: Option<(Vec<u8>, usize)>)
    requires
        at <= bytes@.len(),
    ensures
        r matches Some(v) ==> parse_string(bytes@, at as int) == Some((v.0@, v.1 as int)) && v.1
            <= bytes@.len(),
        r is None ==> parse_string(bytes@, at as int) is None,
{
    if !(at < bytes.len() && bytes[at] == 0x22) {
        return None;
    }
    let start = at + 1;
    let mut out: Vec<u8> = Vec::new();
    let mut i = start;
    proof {
        let sp = parse_string_body(bytes@, start as int);
        if sp is Some {
            assert(out@ + sp->Some_0.0 =~= sp->Some_0.0);
        }
    }
    while i < bytes.len()
        invariant
            start <= i <= bytes@.len(),
            body_step(bytes@, start as int, out@, i as int),
        decreases bytes@.len() - i,
    {
        let b = bytes[i];
        if b == 0x22 {
            proof {
                assert(out@ + Seq::<u8>::empty() =~= out@);
            }
            return Some((out, i + 1));
        } else if b == 0x5c {
            if i + 1 >= bytes.len() {
                return None;
            }
            let c = match unescape_exec(bytes[i + 1]) {
                Some(c) => c,
                None => {
                    return None;
                },
            };
            let ghost out0 = out@;
            out.push(c);
            proof {
                let sp = parse_string_body(bytes@, i + 2);
                if sp is Some {
                    assert(out0 + (seq![c] + sp->Some_0.0) =~= out@ + sp->Some_0.0);
                }
            }
            i = i + 2;
        } else if b < 0x20 {
            return None;
        } else {
            let ghost out0 = out@;
            out.push(b);
            proof {
                let sp = parse_string_body(bytes@, i + 1);
                if sp is Some {
                    assert(out0 + (seq![b] + sp->Some_0.0) =~= out@ + sp->Some_0.0);
                }
            }
            i = i + 1;
        }
    }
    None
}

#[derive(Debug)]
struct Member {
    key: Vec<u8>,
    value: Vec<u8>,
    end: usize,
}

fn parse_member_at(bytes: &[u8], at: usize) -> (r: Option<Member>)
    requires
        at <= bytes@.len(),
    ensures
        r matches Some(m) ==> parse_member(bytes@, at as int) == Some(
            (m.key@, m.value@, m.end as int),
        ) && m.end <= bytes@.len(),
        r is None ==> parse_member(bytes@, at as int) is None,
{
    let k_at = skip_ws_exec(bytes, at);
    let (key, k_end) = match parse_string_at(bytes, k_at) {
        Some(v) => v,
        None => {
            return None;
        },
    };
    let j = skip_ws_exec(bytes, k_end);
    if !(j < bytes.len() && bytes[j] == 0x3a) {
        return None;
    }
    let v_at = skip_ws_exec(bytes, j + 1);
    let (value, v_end) = match parse_string_at(bytes, v_at) {
        Some(v) => v,
        None => {
            return None;
        },
    };
    Some(Member { key, value, end: v_end })
}

fn is_bytes_ssid(v: &Vec<u8>) -> (r: bool)
    ensures
        r <==> v@ == ssid_key(),
{
    let r = v.len() == 4 && v[0] == 115 && v[1] == 115 && v[2] == 105 && v[3] == 100;
    proof {
        if r {
            assert(v@ =~= ssid_key());
        }
    }
    r
}

fn is_bytes_password(v: &Vec<u8>) -> (r: bool)
    ensures
        r <==> v@ == password_key(),
{
    let r = v.len() == 8 && v[0] == 112 && v[1] == 97 && v[2] == 115 && v[3] == 115 && v[4] == 119
        && v[5] == 111 && v[6] == 114 && v[7] == 100;
    proof {
        if r {
            assert(v@ =~= password_key());
        }
    }
    r
}

fn is_bytes_tag(v: &Vec<u8>) -> (r: bool)
    ensures
        r <==> v@ == set_wifi_tag(),
{
    let r = v.len() == 13 && v[0] == 83 && v[1] == 101 && v[2] == 116 && v[3] == 87 && v[4] == 105
        && v[5] == 102 && v[6] == 105 && v[7] == 67 && v[8] == 111 && v[9] == 110 && v[10] == 102
        && v[11] == 105 && v[12] == 103;
    proof {
        if r {
            assert(v@ =~= set_wifi_tag());
        }
    }
    r
}

fn parse_command_bytes(bytes: &[u8]) -> (r: Option<(Vec<u8>, Vec<u8>)>)
    ensures
        r matches Some(v) ==> spec_parse_command(bytes@) == Some((v.0@, v.1@)),
        r is None ==> spec_parse_command(bytes@) is None,
{
    let i0 = skip_ws_exec(bytes, 0);
    if !(i0 < bytes.len() && bytes[i0] == 0x7b) {
        return None;
    }
    let t_at = skip_ws_exec(bytes, i0 + 1);
    let (tag, t_end) = match parse_string_at(bytes, t_at) {
        Some(v) => v,
        None => {
            return None;
        },
    };
    if !is_bytes_tag(&tag) {
        return None;
    }
    let j0 = skip_ws_exec(bytes, t_end);
    if !(j0 < bytes.len() && bytes[j0] == 0x3a) {
        return None;
    }
    let j1 = skip_ws_exec(bytes, j0 + 1);
    if !(j1 < bytes.len() && bytes[j1] == 0x7b) {
        return None;
    }
    let m1 = match parse_member_at(bytes, j1 + 1) {
        Some(m) => m,
        None => {
            return None;
        },
    };
    let c = skip_ws_exec(bytes, m1.end);
    if !(c < bytes.len() && bytes[c] == 0x2c) {
        return None;
    }
    let m2 = match parse_member_at(bytes, c + 1) {
        Some(m) => m,
        None => {
            return None;
        },
    };
    let e1 = skip_ws_exec(bytes, m2.end);
    if !(e1 < bytes.len() && bytes[e1] == 0x7d) {
        return None;
    }
    let e2 = skip_ws_exec(bytes, e1 + 1);
    if !(e2 < bytes.len() && bytes[e2] == 0x7d) {
        return None;
    }
    if skip_ws_exec(bytes, e2 + 1) != bytes.len() {
        return None;
    }
    if is_bytes_ssid(&m1.key) && is_bytes_password(&m2.key) {
        Some((m1.value, m2.value))
    } else if is_bytes_password(&m1.key) && is_bytes_ssid(&m2.key) {
        Some((m2.value, m1.value))
    } else {
        None
    }
}

/// Decode one line of the control channel as a command. Fails exactly on
/// lines outside the accepted grammar (or whose strings are not valid UTF-8
/// after unescaping); on success the command carries exactly the ssid and
/// password the line denotes.
pub fn parse_command(line: &str) -> (r: Result<Command, CommandError>)
    ensures
        r is Ok <==> spec_command_of_line(line.spec_bytes()) is Some,
        r matches Ok(cmd) ==> cmd matches Command::SetWifiConfig(cfg) && spec_command_of_line(
            line.spec_bytes(),
        ) == Some((cfg.ssid@, cfg.password@)),
{
    broadcast use vstd::utf8::encode_utf8_decode_utf8;

    let bytes = line.as_bytes();
    let (sv, pv) = match parse_command_bytes(bytes) {
        Some(v) => v,
        None => {
            return Err(CommandError::Malformed);
        },
    };
    let ssid_str = match bytes_as_str(sv.as_slice()) {
        Some(s) => s,
        None => {
            return Err(CommandError::Malformed);
        },
    };
    let password_str = match bytes_as_str(pv.as_slice()) {
        Some(s) => s,
        None => {
            return Err(CommandError::Malformed);
        },
    };
    Ok(
        Command::SetWifiConfig(
            WifiConfig { ssid: ssid_str.to_owned(), password: password_str.to_owned() },
        ),
    )
}

/// Apply a decoded command against the store: `SetWifiConfig` saves the new
/// credentials wholesale under the Wi-Fi key.
pub fn run_command(command: Command, storage: &mut ConfigStore) -> (r: Result<(), ConfigError>)
    requires
        old(storage).wf(),
    ensures
        final(storage).wf(),
        r is Ok,
        command matches Command::SetWifiConfig(cfg) ==> final(storage)@ == old(storage)@.insert(
            wifi_config_key(),
            spec_encode_config(cfg.ssid@, cfg.password@),
        ),
{
    match command {
        Command::SetWifiConfig(wifi_config) => {
            match wifi_config.save(storage) {
                Ok(_) => Ok(()),
                Err(e) => Err(e),
            }
        },
    }
}

/// Decode one line and apply it: on a well-formed line the store gains the
/// line's credentials under the Wi-Fi key; on a malformed line it is left
/// untouched and the error is reported.
pub fn run_command_str(storage: &mut ConfigStore, command_str: &str) -> (r: Result<
    (),
    CommandError,
>)
    requires
        old(storage).wf(),
    ensures
        final(storage).wf(),
        r is Ok <==> spec_command_of_line(command_str.spec_bytes()) is Some,
        spec_command_of_line(command_str.spec_bytes()) matches Some(c) ==> final(storage)@ == old(
            storage,
        )@.insert(wifi_config_key(), spec_encode_config(c.0, c.1)),
        r is Err ==> final(storage)@ == old(storage)@,
{
    let command = match parse_command(command_str) {
        Ok(c) => c,
        Err(e) => {
            return Err(e);
        },
    };
    match run_command(command, storage) {
        Ok(_) => Ok(()),
        Err(_) => Ok(()),
    }
}

} // verus!
