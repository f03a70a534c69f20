//! Persistent device configuration: the Wi-Fi credentials record, its
//! compact binary serialization (a length-prefixed blob per field, with a
//! little-endian base-128 varint length), and typed load/save against the
//! configuration store.

use vstd::prelude::*;

use vstd::string::StringSliceAdditionalSpecFns;
use vstd::utf8::{decode_utf8, encode_utf8, valid_utf8};

use crate::store::ConfigStore;
use crate::text::bytes_as_str;

verus! {

/// The key Wi-Fi credentials are stored under.
pub open spec fn wifi_config_key() -> Seq<char> {
    seq!['W', 'I', 'F', 'I', '_', 'C', 'O', 'N', 'F', 'I', 'G']
}

/// The store key for Wi-Fi credentials, as text.
pub fn wifi_config_key_str() -> (r: &'static str)
    ensures
        r@ == wifi_config_key(),
{
    proof {
        reveal_strlit("WIFI_CONFIG");
        assert("WIFI_CONFIG"@ =~= wifi_config_key());
    }
    "WIFI_CONFIG"
}

/// Loading a stored configuration failed: the bytes under the key do not
/// decode. Distinct from an absent key, which yields the default value.
#[derive(Debug, PartialEq, Eq, Structural)]
pub enum ConfigError {
    Corrupt,
}

/// Device Wi-Fi credentials. Replaced wholesale on update, never merged.
#[derive(Debug)]
pub struct WifiConfig {
    pub ssid: String,
    pub password: String,
}

impl PartialEq for WifiConfig {
    fn eq(&self, other: &Self) -> (r: bool) {
        self.ssid == other.ssid && self.password == other.password
    }
}

impl vstd::std_specs::cmp::PartialEqSpecImpl for WifiConfig {
    open spec fn obeys_eq_spec() -> bool {
        true
    }

    open spec fn eq_spec(&self, other: &Self) -> bool {
        self.ssid@ == other.ssid@ && self.password@ == other.password@
    }
}

impl Default for WifiConfig {
    /// Both fields default to empty text.
    fn default() -> (r: Self)
        ensures
            r.ssid@ == Seq::<char>::empty(),
            r.password@ == Seq::<char>::empty(),
    {
        WifiConfig { ssid: String::new(), password: String::new() }
    }
}

/// Little-endian base-128 varint encoding of `n`: seven value bits per byte,
/// least significant first; the high bit marks a continuation.
pub open spec fn varint(n: nat) -> Seq<u8>
    decreases n,
{
    if n < 128 {
        seq![n as u8]
    } else {
        seq![(128 + (n % 128)) as u8] + varint(n / 128)
    }
}

/// Parse a varint at offset `i`: the value and the offset just past it.
pub open spec fn parse_varint(bytes: Seq<u8>, i: int) -> Option<(nat, int)>
    decreases bytes.len() - i,
{
    if i < 0 || i >= bytes.len() {
        None
    } else if bytes[i] < 128 {
        Some((bytes[i] as nat, i + 1))
    } else {
        match parse_varint(bytes, i + 1) {
            Some(r) => Some(((bytes[i] - 128) as nat + 128 * r.0, r.1)),
            None => None,
        }
    }
}

/// A parsed varint ends past where it starts and within the bytes.
pub proof fn lemma_parse_varint_bounds(bytes: Seq<u8>, i: int)
    ensures
        parse_varint(bytes, i) matches Some(r) ==> i < r.1 <= bytes.len(),
    decreases bytes.len() - i,
{
    if 0 <= i < bytes.len() && bytes[i] >= 128 {
        lemma_parse_varint_bounds(bytes, i + 1);
    }
}

/// A varint parses back to the value it encodes, wherever it sits.
pub proof fn lemma_varint_roundtrip(bytes: Seq<u8>, i: int, n: nat)
    requires
        0 <= i,
        i + varint(n).len() <= bytes.len(),
        bytes.subrange(i, i + varint(n).len()) == varint(n),
    ensures
        parse_varint(bytes, i) == Some((n, i + varint(n).len())),
    decreases n,
{
    if n < 128 {
        assert(bytes.subrange(i, i + 1)[0] == bytes[i]);
    } else {
        let rest = varint(n / 128);
        assert(bytes[i] == varint(n)[0]);
        assert(bytes[i] == 128 + (n % 128));
        assert(bytes.subrange(i + 1, i + 1 + rest.len()) =~= varint(n).skip(1));
        assert(varint(n).skip(1) =~= rest);
        lemma_varint_roundtrip(bytes, i + 1, n / 128);
        assert((bytes[i] - 128) as nat + 128 * (n / 128) == n) by {
            vstd::arithmetic::div_mod::lemma_fundamental_div_mod(n as int, 128);
        }
    }
}

/// Parse a length-prefixed blob at offset `i`: the blob's bytes and the
/// offset just past them.
pub open spec fn parse_blob(bytes: Seq<u8>, i: int) -> Option<(Seq<u8>, int)> {
    match parse_varint(bytes, i) {
        Some(r) => {
            if r.1 + r.0 <= bytes.len() {
                Some((bytes.subrange(r.1, r.1 + r.0), r.1 + r.0))
            } else {
                None
            }
        },
        None => None,
    }
}

/// The serialized form of a credentials record: each field as a
/// length-prefixed blob of its UTF-8 bytes, ssid first.
pub open spec fn spec_encode_config(ssid: Seq<char>, password: Seq<char>) -> Seq<u8> {
    varint(encode_utf8(ssid).len()) + encode_utf8(ssid) + varint(encode_utf8(password).len())
        + encode_utf8(password)
}

/// What stored bytes decode to: two length-prefixed blobs of valid UTF-8
/// filling the value exactly, read back as text.
pub open spec fn spec_decode_config(bytes: Seq<u8>) -> Option<(Seq<char>, Seq<char>)> {
    match parse_blob(bytes, 0) {
        Some(s) => match parse_blob(bytes, s.1) {
            Some(p) => {
                if p.1 == bytes.len() && valid_utf8(s.0) && valid_utf8(p.0) {
                    Some((decode_utf8(s.0), decode_utf8(p.0)))
                } else {
                    None
                }
            },
            None => None,
        },
        None => None,
    }
}

/// Decoding what encoding produced yields back exactly the credentials that
/// went in, for arbitrary ssid and password text (empty included).
pub proof fn lemma_config_roundtrip(ssid: Seq<char>, password: Seq<char>)
    ensures
        spec_decode_config(spec_encode_config(ssid, password)) == Some((ssid, password)),
{
    broadcast use vstd::utf8::encode_utf8_valid_utf8, vstd::utf8::encode_utf8_decode_utf8;

    let sb = encode_utf8(ssid);
    let pb = encode_utf8(password);
    let bytes = spec_encode_config(ssid, password);
    let sv = varint(sb.len());
    let pv = varint(pb.len());

    assert(bytes.subrange(0, sv.len() as int) =~= sv);
    lemma_varint_roundtrip(bytes, 0, sb.len());
    assert(bytes.subrange(sv.len() as int, (sv.len() + sb.len()) as int) =~= sb);

    let i1 = (sv.len() + sb.len()) as int;
    assert(bytes.subrange(i1, i1 + pv.len()) =~= pv);
    lemma_varint_roundtrip(bytes, i1, pb.len());
    assert(bytes.subrange(i1 + pv.len(), i1 + pv.len() + pb.len()) =~= pb);
}

/// After saving credentials, the store holds bytes under the Wi-Fi key that
/// decode back to exactly those credentials: a save followed by a load
/// returns what was saved.
pub proof fn lemma_save_then_load(
    store: Map<Seq<char>, Seq<u8>>,
    ssid: Seq<char>,
    password: Seq<char>,
)
    ensures
        store.insert(wifi_config_key(), spec_encode_config(ssid, password)).contains_key(
            wifi_config_key(),
        ),
        spec_decode_config(
            store.insert(wifi_config_key(), spec_encode_config(ssid, password))[wifi_config_key()],
        ) == Some((ssid, password)),
{
    lemma_config_roundtrip(ssid, password);
}

/// Append the varint encoding of `n` to `out`.
#[verifier::loop_isolation(false)]
fn encode_varint(n: usize, out: &mut Vec<u8>)
    ensures
        final(out)@ == old(out)@ + varint(n as nat),
{
    let mut m = n;
    while m >= 128
        invariant
            old(out)@ + varint(n as nat) == out@ + varint(m as nat),
        decreases m,
    {
        out.push((128 + (m % 128) as u8) as u8);
        m = m / 128;
        proof {
            assert(out@ + varint(m as nat) =~= old(out)@ + varint(n as nat));
        }
    }
    out.push(m as u8);
    proof {
        assert(out@ =~= old(out)@ + varint(n as nat));
    }
}

/// Append all of `s` to `out`.
#[verifier::loop_isolation(false)]
fn push_bytes(out: &mut Vec<u8>, s: &[u8])
    ensures
        final(out)@ == old(out)@ + s@,
{
    let mut i: usize = 0;
    while i < s.len()
        invariant
            i <= s@.len(),
            out@ == old(out)@ + s@.take(i as int),
        decreases s@.len() - i,
    {
        out.push(s[i]);
        proof {
            assert(out@ =~= old(out)@ + s@.take(i + 1));
        }
        i = i + 1;
    }
    proof {
        assert(out@ =~= old(out)@ + s@);
    }
}

/// Read the varint at `pos`. `None` when no varint is there or its value
/// does not fit the machine.
fn decode_varint(bytes: &[u8], pos: usize) -> (r: Option<(usize, usize)>)
    ensures
        r matches Some(v) ==> parse_varint(bytes@, pos as int) == Some((v.0 as nat, v.1 as int)),
        r is None ==> parse_varint(bytes@, pos as int) is None || (parse_varint(
            bytes@,
            pos as int,
        ) matches Some(v) && v.0 > usize::MAX),
    decreases bytes@.len() - pos,
{
    if pos >= bytes.len() {
        return None;
    }
    let b = bytes[pos];
    if b < 128 {
        return Some((b as usize, pos + 1));
    }
    match decode_varint(bytes, pos + 1) {
        None => None,
        Some((v, j)) => {
            let low = (b - 128) as usize;
            if v > (usize::MAX - low) / 128 {
                proof {
                    assert(low + 128 * v > usize::MAX) by (nonlinear_arith)
                        requires
                            v > (usize::MAX - low) / 128,
                            low < 128,
                    {
                        vstd::arithmetic::div_mod::lemma_fundamental_div_mod(
                            (usize::MAX - low) as int,
                            128,
                        );
                    }
                }
                None
            } else {
                proof {
                    assert(low + 128 * v <= usize::MAX) by (nonlinear_arith)
                        requires
                            v <= (usize::MAX - low) / 128,
                            low < 128,
                    {
                        vstd::arithmetic::div_mod::lemma_fundamental_div_mod(
                            (usize::MAX - low) as int,
                            128,
                        );
                    }
                }
                Some((low + 128 * v, j))
            }
        },
    }
}

impl WifiConfig {
    /// Serialize this record to its stored byte form.
    pub fn to_bytes(&self) -> (r: Vec<u8>)
        ensures
            r@ == spec_encode_config(self.ssid@, self.password@),
    {
        let mut out: Vec<u8> = Vec::new();
        let sb = self.ssid.as_str().as_bytes();
        encode_varint(sb.len(), &mut out);
        push_bytes(&mut out, sb);
        let pb = self.password.as_str().as_bytes();
        encode_varint(pb.len(), &mut out);
        push_bytes(&mut out, pb);
        proof {
            assert(out@ =~= spec_encode_config(self.ssid@, self.password@));
        }
        out
    }

    /// Deserialize a stored byte form; `None` exactly when the bytes are not
    /// a serialized credentials record.
    pub fn try_from_bytes(bytes: &[u8]) -> (r: Option<WifiConfig>)
        ensures
            r is Some <==> spec_decode_config(bytes@) is Some,
            r matches Some(cfg) ==> spec_decode_config(bytes@) == Some(
                (cfg.ssid@, cfg.password@),
            ),
    {
        broadcast use vstd::utf8::encode_utf8_decode_utf8;

        let n = bytes.len();
        proof {
            lemma_parse_varint_bounds(bytes@, 0);
        }
        let (slen, s_start) = match decode_varint(bytes, 0) {
            Some(v) => v,
            None => {
                return None;
            },
        };
        if slen > n - s_start {
            return None;
        }
        let s_end = s_start + slen;
        let sb = vstd::slice::slice_subrange(bytes, s_start, s_end);

        proof {
            lemma_parse_varint_bounds(bytes@, s_end as int);
        }
        let (plen, p_start) = match decode_varint(bytes, s_end) {
            Some(v) => v,
            None => {
                return None;
            },
        };
        if plen > n - p_start {
            return None;
        }
        let p_end = p_start + plen;
        let pb = vstd::slice::slice_subrange(bytes, p_start, p_end);

        if p_end != n {
            return None;
        }
        let ssid_str = match bytes_as_str(sb) {
            Some(s) => s,
            None => {
                return None;
            },
        };
        let password_str = match bytes_as_str(pb) {
            Some(s) => s,
            None => {
                return None;
            },
        };
        Some(WifiConfig { ssid: ssid_str.to_owned(), password: password_str.to_owned() })
    }

    /// Load the stored credentials: the default (both fields empty) when the
    /// key is absent, the decoded record when it is present and readable,
    /// and `ConfigError::Corrupt` exactly when bytes are stored under the
    /// key but do not decode.
    pub fn load(storage: &ConfigStore) -> (r: Result<WifiConfig, ConfigError>)
        requires
            storage.wf(),
        ensures
            r is Err <==> storage@.contains_key(wifi_config_key()) && spec_decode_config(
                storage@[wifi_config_key()],
            ) is None,
            r matches Ok(cfg) ==> if storage@.contains_key(wifi_config_key()) {
                spec_decode_config(storage@[wifi_config_key()]) == Some((cfg.ssid@, cfg.password@))
            } else {
                cfg.ssid@ == Seq::<char>::empty() && cfg.password@ == Seq::<char>::empty()
            },
    {
        match storage.get(wifi_config_key_str()) {
            Some(raw) => match WifiConfig::try_from_bytes(raw.as_slice()) {
                Some(cfg) => Ok(cfg),
                None => Err(ConfigError::Corrupt),
            },
            None => Ok(WifiConfig::default()),
        }
    }

    /// Serialize these credentials and write them under the Wi-Fi key,
    /// replacing any prior value.
    pub fn save(&self, storage: &mut ConfigStore) -> (r: Result<(), ConfigError>)
        requires
            old(storage).wf(),
        ensures
            final(storage).wf(),
            r is Ok,
            final(storage)@ == old(storage)@.insert(
                wifi_config_key(),
                spec_encode_config(self.ssid@, self.password@),
            ),
    {
        let buf = self.to_bytes();
        storage.put(wifi_config_key_str(), buf);
        Ok(())
    }
}

} // verus!
