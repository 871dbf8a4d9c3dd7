use crate::errors::Error;
use crate::json::{
    byte_at, dec_digits, is_ws, lemma_dec_digits_are_digits, lemma_dec_digits_len,
    lemma_digits_end_bounds, lemma_digits_prefix, lemma_digits_val_of_rep,
    lemma_skip_string_bounds, lemma_skip_string_plain, lemma_skip_value_bounds,
    lemma_skip_ws_bounds, parse_number_at, push_dec_u64, skip_string, skip_value, skip_ws,
    spec_parse_number, spec_skip_string, spec_skip_value, spec_skip_ws,
};
use crate::proto::{push_u32, spec_u32_at, u32_at};
use vstd::bytes::{lemma_auto_spec_u32_to_from_le_bytes, spec_u32_to_le_bytes};
use vstd::prelude::*;
use vstd::slice::slice_subrange;

verus! {

/// The session parameters a server pushes: buffer depth, extra client
/// latency, mute flag and volume.
#[allow(non_snake_case)]
#[derive(Copy, Clone, Debug, PartialEq, Eq, Structural)]
pub struct ServerSettings {
    pub bufferMs: u32,
    pub latency: i32,
    pub muted: bool,
    pub volume: u8,
}

/// Fields collected so far while walking the settings object.
#[derive(Copy, Clone, Debug)]
pub struct PartialSettings {
    pub buffer_ms: Option<u32>,
    pub latency: Option<i32>,
    pub muted: Option<bool>,
    pub volume: Option<u8>,
}

pub open spec fn spec_empty_partial() -> PartialSettings {
    PartialSettings { buffer_ms: None, latency: None, muted: None, volume: None }
}

/// A finished object must have supplied all four fields.
pub open spec fn spec_complete(p: PartialSettings) -> Option<ServerSettings> {
    match (p.buffer_ms, p.latency, p.muted, p.volume) {
        (Some(b), Some(l), Some(m), Some(v)) => Some(
            ServerSettings { bufferMs: b, latency: l, muted: m, volume: v },
        ),
        _ => None,
    }
}

pub open spec fn buffer_key() -> Seq<u8> {
    seq![98u8, 117u8, 102u8, 102u8, 101u8, 114u8, 77u8, 115u8]
}

pub open spec fn latency_key() -> Seq<u8> {
    seq![108u8, 97u8, 116u8, 101u8, 110u8, 99u8, 121u8]
}

pub open spec fn muted_key() -> Seq<u8> {
    seq![109u8, 117u8, 116u8, 101u8, 100u8]
}

pub open spec fn volume_key() -> Seq<u8> {
    seq![118u8, 111u8, 108u8, 117u8, 109u8, 101u8]
}

/// One member's value: the four known keys demand their type and range and
/// may appear once; any other key's value is skipped unread.
pub open spec fn spec_member_value(s: Seq<u8>, v: int, key: Seq<u8>, acc: PartialSettings) -> Result<
    (int, PartialSettings),
    Error,
>
    recommends
        0 <= v <= s.len(),
{
    if key == buffer_key() {
        if acc.buffer_ms is Some {
            Err(Error::MalformedPayload)
        } else {
            match spec_parse_number(s, v) {
                None => Err(Error::MalformedPayload),
                Some((e, val)) => if val <= 0xffff_ffff {
                    Ok(
                        (
                            e,
                            PartialSettings {
                                buffer_ms: Some(val as u32),
                                latency: acc.latency,
                                muted: acc.muted,
                                volume: acc.volume,
                            },
                        ),
                    )
                } else {
                    Err(Error::MalformedPayload)
                },
            }
        }
    } else if key == latency_key() {
        if acc.latency is Some {
            Err(Error::MalformedPayload)
        } else if v < s.len() && s[v] == 45 {
            match spec_parse_number(s, v + 1) {
                None => Err(Error::MalformedPayload),
                Some((e, val)) => if val <= 0x8000_0000 {
                    Ok(
                        (
                            e,
                            PartialSettings {
                                buffer_ms: acc.buffer_ms,
                                latency: Some((-val) as i32),
                                muted: acc.muted,
                                volume: acc.volume,
                            },
                        ),
                    )
                } else {
                    Err(Error::MalformedPayload)
                },
            }
        } else {
            match spec_parse_number(s, v) {
                None => Err(Error::MalformedPayload),
                Some((e, val)) => if val <= 0x7fff_ffff {
                    Ok(
                        (
                            e,
                            PartialSettings {
                                buffer_ms: acc.buffer_ms,
                                latency: Some(val as i32),
                                muted: acc.muted,
                                volume: acc.volume,
                            },
                        ),
                    )
                } else {
                    Err(Error::MalformedPayload)
                },
            }
        }
    } else if key == muted_key() {
        if acc.muted is Some {
            Err(Error::MalformedPayload)
        } else if v + 4 <= s.len() && s[v] == 116 && s[v + 1] == 114 && s[v + 2] == 117 && s[v + 3]
            == 101 {
            Ok(
                (
                    v + 4,
                    PartialSettings {
                        buffer_ms: acc.buffer_ms,
                        latency: acc.latency,
                        muted: Some(true),
                        volume: acc.volume,
                    },
                ),
            )
        } else if v + 5 <= s.len() && s[v] == 102 && s[v + 1] == 97 && s[v + 2] == 108 && s[v + 3]
            == 115 && s[v + 4] == 101 {
            Ok(
                (
                    v + 5,
                    PartialSettings {
                        buffer_ms: acc.buffer_ms,
                        latency: acc.latency,
                        muted: Some(false),
                        volume: acc.volume,
                    },
                ),
            )
        } else {
            Err(Error::MalformedPayload)
        }
    } else if key == volume_key() {
        if acc.volume is Some {
            Err(Error::MalformedPayload)
        } else {
            match spec_parse_number(s, v) {
                None => Err(Error::MalformedPayload),
                Some((e, val)) => if val <= 255 {
                    Ok(
                        (
                            e,
                            PartialSettings {
                                buffer_ms: acc.buffer_ms,
                                latency: acc.latency,
                                muted: acc.muted,
                                volume: Some(val as u8),
                            },
                        ),
                    )
                } else {
                    Err(Error::MalformedPayload)
                },
            }
        }
    } else {
        match spec_skip_value(s, v) {
            None => Err(Error::MalformedPayload),
            Some(e) => Ok((e, acc)),
        }
    }
}

pub proof fn lemma_member_value_bounds(s: Seq<u8>, v: int, key: Seq<u8>, acc: PartialSettings)
    requires
        0 <= v <= s.len(),
    ensures
        match spec_member_value(s, v, key, acc) {
            Ok((e, _)) => v < e <= s.len(),
            Err(_) => true,
        },
{
    lemma_digits_end_bounds(s, v);
    if v < s.len() {
        lemma_digits_end_bounds(s, v + 1);
    }
    lemma_skip_value_bounds(s, v);
}

/// Members of the settings object from position `i` (just after `{` or a
/// comma) to just after the closing `}`.
pub open spec fn spec_members(s: Seq<u8>, i: int, acc: PartialSettings) -> Result<
    (int, PartialSettings),
    Error,
>
    decreases s.len() - i when 0 <= i <= s.len()
{
    let k = spec_skip_ws(s, i);
    if !(k < s.len() && s[k] == 34) {
        Err(Error::MalformedPayload)
    } else {
        match spec_skip_string(s, k + 1) {
            None => Err(Error::MalformedPayload),
            Some(ke) => {
                let key = s.subrange(k + 1, ke - 1);
                let c = spec_skip_ws(s, ke);
                if !(c < s.len() && s[c] == 58) {
                    Err(Error::MalformedPayload)
                } else {
                    let v = spec_skip_ws(s, c + 1);
                    match spec_member_value(s, v, key, acc) {
                        Err(e) => Err(e),
                        Ok((w, acc2)) => {
                            let t = spec_skip_ws(s, w);
                            if t < s.len() && s[t] == 44 {
                                proof {
                                    lemma_skip_ws_bounds(s, i);
                                    lemma_skip_string_bounds(s, k + 1);
                                    lemma_skip_ws_bounds(s, ke);
                                    lemma_skip_ws_bounds(s, c + 1);
                                    lemma_member_value_bounds(s, v, key, acc);
                                    lemma_skip_ws_bounds(s, w);
                                }
                                spec_members(s, t + 1, acc2)
                            } else if t < s.len() && s[t] == 125 {
                                Ok((t + 1, acc2))
                            } else {
                                Err(Error::MalformedPayload)
                            }
                        },
                    }
                }
            },
        }
    }
}

/// Meaning of the settings JSON text: one object holding the four fields,
/// in any order, among any other members, with nothing but whitespace after
/// it.
pub open spec fn spec_parse_settings_json(js: Seq<u8>) -> Result<ServerSettings, Error> {
    let o = spec_skip_ws(js, 0);
    if !(o < js.len() && js[o] == 123) {
        Err(Error::MalformedPayload)
    } else {
        match spec_members(js, o + 1, spec_empty_partial()) {
            Err(e) => Err(e),
            Ok((end, p)) => if spec_skip_ws(js, end) == js.len() {
                match spec_complete(p) {
                    Some(ss) => Ok(ss),
                    None => Err(Error::MalformedPayload),
                }
            } else {
                Err(Error::MalformedPayload)
            },
        }
    }
}

/// Meaning of the whole payload: a 32-bit length prefix, then the JSON
/// text; payload bytes past the declared length are ignored.
pub open spec fn spec_parse_server_settings(payload: Seq<u8>) -> Result<ServerSettings, Error> {
    if payload.len() < 4 {
        Err(Error::MalformedPayload)
    } else {
        let jlen = spec_u32_at(payload, 0);
        if 4 + jlen > payload.len() {
            Err(Error::MalformedPayload)
        } else {
            spec_parse_settings_json(payload.subrange(4, 4 + jlen))
        }
    }
}

// ---------------------------------------------------------------------------
// Executable parser
// ---------------------------------------------------------------------------

fn key_is_buffer(key: &[u8]) -> (r: bool)
    ensures
        r == (key@ == buffer_key()),
{
    let n = key.len();
    if n == 8 && byte_at(key, 0) == 98 && byte_at(key, 1) == 117 && byte_at(key, 2) == 102
        && byte_at(key, 3) == 102 && byte_at(key, 4) == 101 && byte_at(key, 5) == 114 && byte_at(
        key,
        6,
    ) == 77 && byte_at(key, 7) == 115 {
        assert(key@ =~= buffer_key());
        true
    } else {
        assert(key@ != buffer_key());
        false
    }
}

fn key_is_latency(key: &[u8]) -> (r: bool)
    ensures
        r == (key@ == latency_key()),
{
    let n = key.len();
    if n == 7 && byte_at(key, 0) == 108 && byte_at(key, 1) == 97 && byte_at(key, 2) == 116
        && byte_at(key, 3) == 101 && byte_at(key, 4) == 110 && byte_at(key, 5) == 99 && byte_at(
        key,
        6,
    ) == 121 {
        assert(key@ =~= latency_key());
        true
    } else {
        assert(key@ != latency_key());
        false
    }
}

fn key_is_muted(key: &[u8]) -> (r: bool)
    ensures
        r == (key@ == muted_key()),
{
    let n = key.len();
    if n == 5 && byte_at(key, 0) == 109 && byte_at(key, 1) == 117 && byte_at(key, 2) == 116
        && byte_at(key, 3) == 101 && byte_at(key, 4) == 100 {
        assert(key@ =~= muted_key());
        true
    } else {
        assert(key@ != muted_key());
        false
    }
}

fn key_is_volume(key: &[u8]) -> (r: bool)
    ensures
        r == (key@ == volume_key()),
{
    let n = key.len();
    if n == 6 && byte_at(key, 0) == 118 && byte_at(key, 1) == 111 && byte_at(key, 2) == 108
        && byte_at(key, 3) == 117 && byte_at(key, 4) == 109 && byte_at(key, 5) == 101 {
        assert(key@ =~= volume_key());
        true
    } else {
        assert(key@ != volume_key());
        false
    }
}

fn member_value(js: &[u8], v: usize, key: &[u8], acc: PartialSettings) -> (r: Result<
    (usize, PartialSettings),
    Error,
>)
    requires
        v <= js@.len(),
        js@.len() < usize::MAX,
    ensures
        match r {
            Ok((e, acc2)) => spec_member_value(js@, v as int, key@, acc) == Ok::<
                (int, PartialSettings),
                Error,
            >((e as int, acc2)) && v < e <= js@.len(),
            Err(er) => spec_member_value(js@, v as int, key@, acc) == Err::<
                (int, PartialSettings),
                Error,
            >(er),
        },
{
    proof {
        lemma_member_value_bounds(js@, v as int, key@, acc);
    }
    let n = js.len();
    if key_is_buffer(key) {
        if acc.buffer_ms.is_some() {
            return Err(Error::MalformedPayload);
        }
        match parse_number_at(js, v) {
            None => Err(Error::MalformedPayload),
            Some((e, val)) => {
                if val <= 0xffff_ffff {
                    Ok(
                        (
                            e,
                            PartialSettings {
                                buffer_ms: Some(val as u32),
                                latency: acc.latency,
                                muted: acc.muted,
                                volume: acc.volume,
                            },
                        ),
                    )
                } else {
                    Err(Error::MalformedPayload)
                }
            },
        }
    } else if key_is_latency(key) {
        if acc.latency.is_some() {
            return Err(Error::MalformedPayload);
        }
        if v < n && byte_at(js, v) == 45 {
            match parse_number_at(js, v + 1) {
                None => Err(Error::MalformedPayload),
                Some((e, val)) => {
                    if val <= 0x8000_0000 {
                        let l: i64 = -(val as i64);
                        Ok(
                            (
                                e,
                                PartialSettings {
                                    buffer_ms: acc.buffer_ms,
                                    latency: Some(l as i32),
                                    muted: acc.muted,
                                    volume: acc.volume,
                                },
                            ),
                        )
                    } else {
                        Err(Error::MalformedPayload)
                    }
                },
            }
        } else {
            match parse_number_at(js, v) {
                None => Err(Error::MalformedPayload),
                Some((e, val)) => {
                    if val <= 0x7fff_ffff {
                        Ok(
                            (
                                e,
                                PartialSettings {
                                    buffer_ms: acc.buffer_ms,
                                    latency: Some(val as i32),
                                    muted: acc.muted,
                                    volume: acc.volume,
                                },
                            ),
                        )
                    } else {
                        Err(Error::MalformedPayload)
                    }
                },
            }
        }
    } else if key_is_muted(key) {
        if acc.muted.is_some() {
            return Err(Error::MalformedPayload);
        }
        if n - v >= 4 && byte_at(js, v) == 116 && byte_at(js, v + 1) == 114 && byte_at(js, v + 2)
            == 117 && byte_at(js, v + 3) == 101 {
            Ok(
                (
                    v + 4,
                    PartialSettings {
                        buffer_ms: acc.buffer_ms,
                        latency: acc.latency,
                        muted: Some(true),
                        volume: acc.volume,
                    },
                ),
            )
        } else if n - v >= 5 && byte_at(js, v) == 102 && byte_at(js, v + 1) == 97 && byte_at(
            js,
            v + 2,
        ) == 108 && byte_at(js, v + 3) == 115 && byte_at(js, v + 4) == 101 {
            Ok(
                (
                    v + 5,
                    PartialSettings {
                        buffer_ms: acc.buffer_ms,
                        latency: acc.latency,
                        muted: Some(false),
                        volume: acc.volume,
                    },
                ),
            )
        } else {
            Err(Error::MalformedPayload)
        }
    } else if key_is_volume(key) {
        if acc.volume.is_some() {
            return Err(Error::MalformedPayload);
        }
        match parse_number_at(js, v) {
            None => Err(Error::MalformedPayload),
            Some((e, val)) => {
                if val <= 255 {
                    Ok(
                        (
                            e,
                            PartialSettings {
                                buffer_ms: acc.buffer_ms,
                                latency: acc.latency,
                                muted: acc.muted,
                                volume: Some(val as u8),
                            },
                        ),
                    )
                } else {
                    Err(Error::MalformedPayload)
                }
            },
        }
    } else {
        match skip_value(js, v) {
            None => Err(Error::MalformedPayload),
            Some(e) => Ok((e, acc)),
        }
    }
}

impl ServerSettings {
    /// Read the settings payload: a 32-bit length and the JSON object it
    /// frames.  Unknown members are tolerated and ignored; each of the four
    /// known members must appear exactly once with its type and range.
    pub fn parse(payload: &[u8]) -> (r: Result<ServerSettings, Error>)
        ensures
            r == spec_parse_server_settings(payload@),
    {
        let pn = payload.len();
        if pn < 4 {
            return Err(Error::MalformedPayload);
        }
        let jlen = u32_at(payload, 0);
        if jlen as usize > pn - 4 {
            return Err(Error::MalformedPayload);
        }
        let js = slice_subrange(payload, 4, 4 + jlen as usize);
        let n = js.len();
        assert(spec_parse_server_settings(payload@) == spec_parse_settings_json(js@));
        let o = skip_ws(js, 0);
        if !(o < n && byte_at(js, o) == 123) {
            return Err(Error::MalformedPayload);
        }
        let ghost start: int = o as int + 1;
        let mut i: usize = o + 1;
        let mut acc = PartialSettings { buffer_ms: None, latency: None, muted: None, volume: None };
        let end: usize;
        let res: PartialSettings;
        loop
            invariant_except_break
                i <= n,
                0 < start <= n,
                n == js@.len(),
                n < usize::MAX,
                start == spec_skip_ws(js@, 0) + 1,
                js@[start - 1] == 123,
                spec_parse_server_settings(payload@) == spec_parse_settings_json(js@),
                spec_members(js@, start, spec_empty_partial()) == spec_members(
                    js@,
                    i as int,
                    acc,
                ),
            ensures
                spec_members(js@, start, spec_empty_partial()) == Ok::<
                    (int, PartialSettings),
                    Error,
                >((i as int, acc)),
                i <= n,
                spec_parse_server_settings(payload@) == spec_parse_settings_json(js@),
                start == spec_skip_ws(js@, 0) + 1,
                start <= n,
                js@[start - 1] == 123,
            decreases n - i,
        {
            let k = skip_ws(js, i);
            if !(k < n && byte_at(js, k) == 34) {
                assert(spec_members(js@, i as int, acc) == Err::<(int, PartialSettings), Error>(
                    Error::MalformedPayload,
                ));
                return Err(Error::MalformedPayload);
            }
            let ke = match skip_string(js, k + 1) {
                None => {
                    assert(spec_members(js@, i as int, acc) == Err::<
                        (int, PartialSettings),
                        Error,
                    >(Error::MalformedPayload));
                    return Err(Error::MalformedPayload);
                },
                Some(ke) => ke,
            };
            let key = slice_subrange(js, k + 1, ke - 1);
            let c = skip_ws(js, ke);
            if !(c < n && byte_at(js, c) == 58) {
                assert(spec_members(js@, i as int, acc) == Err::<(int, PartialSettings), Error>(
                    Error::MalformedPayload,
                ));
                return Err(Error::MalformedPayload);
            }
            let v = skip_ws(js, c + 1);
            let (w, acc2) = match member_value(js, v, key, acc) {
                Err(e) => {
                    assert(spec_members(js@, i as int, acc) == Err::<
                        (int, PartialSettings),
                        Error,
                    >(e));
                    return Err(e);
                },
                Ok(p) => p,
            };
            let t = skip_ws(js, w);
            if t < n && byte_at(js, t) == 44 {
                assert(spec_members(js@, i as int, acc) == spec_members(js@, t + 1, acc2));
                i = t + 1;
                acc = acc2;
            } else if t < n && byte_at(js, t) == 125 {
                assert(spec_members(js@, i as int, acc) == Ok::<(int, PartialSettings), Error>((
                    t + 1,
                    acc2,
                )));
                i = t + 1;
                acc = acc2;
                break ;
            } else {
                assert(spec_members(js@, i as int, acc) == Err::<(int, PartialSettings), Error>(
                    Error::MalformedPayload,
                ));
                return Err(Error::MalformedPayload);
            }
        }
        end = i;
        res = acc;
        if skip_ws(js, end) != n {
            return Err(Error::MalformedPayload);
        }
        match (res.buffer_ms, res.latency, res.muted, res.volume) {
            (Some(b), Some(l), Some(m), Some(v)) => Ok(
                ServerSettings { bufferMs: b, latency: l, muted: m, volume: v },
            ),
            _ => Err(Error::MalformedPayload),
        }
    }
}

/// Bytes past the declared JSON length never change a successful parse.
pub proof fn lemma_parse_settings_ignores_trailing(s: Seq<u8>, ext: Seq<u8>)
    requires
        spec_parse_server_settings(s) is Ok,
    ensures
        spec_parse_server_settings(s + ext) == spec_parse_server_settings(s),
{
    let t = s + ext;
    assert(t.subrange(0, 4) =~= s.subrange(0, 4));
    let jlen = spec_u32_at(s, 0) as int;
    assert(t.subrange(4, 4 + jlen) =~= s.subrange(4, 4 + jlen));
}

// ---------------------------------------------------------------------------
// Canonical encoder and round trip
// ---------------------------------------------------------------------------

pub open spec fn quoted(key: Seq<u8>) -> Seq<u8> {
    seq![34u8] + key + seq![34u8]
}

pub open spec fn spec_lat_mag(l: i32) -> int {
    if l >= 0 {
        l as int
    } else {
        -(l as int)
    }
}

pub open spec fn true_lit() -> Seq<u8> {
    seq![116u8, 114u8, 117u8, 101u8]
}

pub open spec fn false_lit() -> Seq<u8> {
    seq![102u8, 97u8, 108u8, 115u8, 101u8]
}

/// The canonical compact JSON text for a settings record: the four fields,
/// fixed order, no whitespace.
pub open spec fn spec_encode_settings_json(ss: ServerSettings) -> Seq<u8> {
    seq![123u8] + quoted(buffer_key()) + seq![58u8] + dec_digits(ss.bufferMs as int) + seq![44u8]
        + quoted(latency_key()) + seq![58u8] + (if ss.latency >= 0 {
        Seq::<u8>::empty()
    } else {
        seq![45u8]
    }) + dec_digits(spec_lat_mag(ss.latency)) + seq![44u8] + quoted(muted_key()) + seq![58u8] + (
    if ss.muted {
        true_lit()
    } else {
        false_lit()
    }) + seq![44u8] + quoted(volume_key()) + seq![58u8] + dec_digits(ss.volume as int)
        + seq![125u8]
}

/// The settings payload: length prefix, then the canonical JSON text.
pub open spec fn spec_encode_server_settings(ss: ServerSettings) -> Seq<u8> {
    spec_u32_to_le_bytes(spec_encode_settings_json(ss).len() as u32) + spec_encode_settings_json(
        ss,
    )
}

fn push_quoted_buffer_key(out: &mut Vec<u8>)
    ensures
        final(out)@ == old(out)@ + quoted(buffer_key()),
{
    out.push(34);
    out.push(98);
    out.push(117);
    out.push(102);
    out.push(102);
    out.push(101);
    out.push(114);
    out.push(77);
    out.push(115);
    out.push(34);
    assert(final(out)@ =~= old(out)@ + quoted(buffer_key()));
}

fn push_quoted_latency_key(out: &mut Vec<u8>)
    ensures
        final(out)@ == old(out)@ + quoted(latency_key()),
{
    out.push(34);
    out.push(108);
    out.push(97);
    out.push(116);
    out.push(101);
    out.push(110);
    out.push(99);
    out.push(121);
    out.push(34);
    assert(final(out)@ =~= old(out)@ + quoted(latency_key()));
}

fn push_quoted_muted_key(out: &mut Vec<u8>)
    ensures
        final(out)@ == old(out)@ + quoted(muted_key()),
{
    out.push(34);
    out.push(109);
    out.push(117);
    out.push(116);
    out.push(101);
    out.push(100);
    out.push(34);
    assert(final(out)@ =~= old(out)@ + quoted(muted_key()));
}

fn push_quoted_volume_key(out: &mut Vec<u8>)
    ensures
        final(out)@ == old(out)@ + quoted(volume_key()),
{
    out.push(34);
    out.push(118);
    out.push(111);
    out.push(108);
    out.push(117);
    out.push(109);
    out.push(101);
    out.push(34);
    assert(final(out)@ =~= old(out)@ + quoted(volume_key()));
}

impl ServerSettings {
    /// The settings payload this record denotes: a 32-bit length prefix and
    /// the canonical JSON object.
    #[verifier::rlimit(100)]
    #[verifier::spinoff_prover]
    pub fn as_buf(&self) -> (r: Vec<u8>)
        ensures
            r@ == spec_encode_server_settings(*self),
    {
        let mut js: Vec<u8> = Vec::new();
        js.push(123);
        push_quoted_buffer_key(&mut js);
        js.push(58);
        push_dec_u64(&mut js, self.bufferMs as u64);
        js.push(44);
        push_quoted_latency_key(&mut js);
        js.push(58);
        if self.latency < 0 {
            js.push(45);
        }
        let mag: u64 = if self.latency >= 0 {
            self.latency as u64
        } else {
            (-(self.latency as i64)) as u64
        };
        push_dec_u64(&mut js, mag);
        js.push(44);
        push_quoted_muted_key(&mut js);
        js.push(58);
        if self.muted {
            js.push(116);
            js.push(114);
            js.push(117);
            js.push(101);
        } else {
            js.push(102);
            js.push(97);
            js.push(108);
            js.push(115);
            js.push(101);
        }
        js.push(44);
        push_quoted_volume_key(&mut js);
        js.push(58);
        push_dec_u64(&mut js, self.volume as u64);
        js.push(125);
        assert(js@ =~= spec_encode_settings_json(*self));
        proof {
            lemma_dec_digits_len(self.bufferMs as int);
            lemma_dec_digits_len(spec_lat_mag(self.latency));
            lemma_dec_digits_len(self.volume as int);
        }
        let mut out: Vec<u8> = Vec::new();
        push_u32(&mut out, js.len() as u32);
        out.append(&mut js);
        assert(out@ =~= spec_encode_server_settings(*self));
        out
    }
}

/// One canonical member at `i`: a quoted plain key, a colon, a value that
/// `spec_member_value` accepts, then directly a comma or the closing brace.
proof fn lemma_parse_member_step(
    s: Seq<u8>,
    i: int,
    acc: PartialSettings,
    key: Seq<u8>,
    w: int,
    acc2: PartialSettings,
)
    requires
        0 <= i,
        i + 3 + key.len() <= s.len(),
        s[i] == 34,
        s.subrange(i + 1, i + 1 + key.len()) == key,
        forall|k: int| 0 <= k < key.len() ==> key[k] != 34 && key[k] != 92,
        s[i + 1 + key.len()] == 34,
        s[i + 2 + key.len()] == 58,
        !is_ws(s[i + 3 + key.len()]),
        spec_member_value(s, i + 3 + key.len(), key, acc) == Ok::<(int, PartialSettings), Error>(
            (w, acc2),
        ),
        w < s.len(),
        s[w] == 44 || s[w] == 125,
    ensures
        s[w] == 44 ==> spec_members(s, i, acc) == spec_members(s, w + 1, acc2),
        s[w] == 125 ==> spec_members(s, i, acc) == Ok::<(int, PartialSettings), Error>((
            w + 1,
            acc2,
        )),
{
    let kq = i + 1 + key.len();
    assert(spec_skip_ws(s, i) == i);
    assert forall|k: int| i + 1 <= k < kq implies s[k] != 34 && s[k] != 92 by {
        assert(s[k] == key[k - (i + 1)]);
    }
    lemma_skip_string_plain(s, i + 1, kq);
    let ke = kq + 1;
    assert(s.subrange(i + 1, ke - 1) == key);
    assert(spec_skip_ws(s, ke) == ke);
    assert(spec_skip_ws(s, ke + 1) == ke + 1);
    lemma_member_value_bounds(s, i + 3 + key.len(), key, acc);
    assert(spec_skip_ws(s, w) == w);
}

// Offsets of the canonical text's pieces: ends of the four values.
pub open spec fn enc_w1(ss: ServerSettings) -> int {
    12 + dec_digits(ss.bufferMs as int).len() as int
}

pub open spec fn enc_sgn(ss: ServerSettings) -> Seq<u8> {
    if ss.latency >= 0 {
        Seq::<u8>::empty()
    } else {
        seq![45u8]
    }
}

pub open spec fn enc_mu(ss: ServerSettings) -> Seq<u8> {
    if ss.muted {
        true_lit()
    } else {
        false_lit()
    }
}

pub open spec fn enc_w2(ss: ServerSettings) -> int {
    enc_w1(ss) + 11 + enc_sgn(ss).len() as int + dec_digits(spec_lat_mag(ss.latency)).len() as int
}

pub open spec fn enc_w3(ss: ServerSettings) -> int {
    enc_w2(ss) + 9 + enc_mu(ss).len() as int
}

pub open spec fn enc_w4(ss: ServerSettings) -> int {
    enc_w3(ss) + 10 + dec_digits(ss.volume as int).len() as int
}

pub open spec fn enc_acc1(ss: ServerSettings) -> PartialSettings {
    PartialSettings { buffer_ms: Some(ss.bufferMs), latency: None, muted: None, volume: None }
}

pub open spec fn enc_acc2(ss: ServerSettings) -> PartialSettings {
    PartialSettings {
        buffer_ms: Some(ss.bufferMs),
        latency: Some(ss.latency),
        muted: None,
        volume: None,
    }
}

pub open spec fn enc_acc3(ss: ServerSettings) -> PartialSettings {
    PartialSettings {
        buffer_ms: Some(ss.bufferMs),
        latency: Some(ss.latency),
        muted: Some(ss.muted),
        volume: None,
    }
}

pub open spec fn enc_acc4(ss: ServerSettings) -> PartialSettings {
    PartialSettings {
        buffer_ms: Some(ss.bufferMs),
        latency: Some(ss.latency),
        muted: Some(ss.muted),
        volume: Some(ss.volume),
    }
}

#[verifier::rlimit(100)]
#[verifier::spinoff_prover]
proof fn lemma_rt_member1(ss: ServerSettings)
    ensures
        spec_members(spec_encode_settings_json(ss), 1, spec_empty_partial()) == spec_members(
            spec_encode_settings_json(ss),
            enc_w1(ss) + 1,
            enc_acc1(ss),
        ),
        enc_w1(ss) + 1 < spec_encode_settings_json(ss).len(),
{
    let js = spec_encode_settings_json(ss);
    let bm = dec_digits(ss.bufferMs as int);
    lemma_dec_digits_are_digits(ss.bufferMs as int);
    let v1 = 12int;
    let w1 = enc_w1(ss);
    assert(js[1] == 34);
    assert(js.subrange(2, 10) =~= buffer_key());
    assert(js[10] == 34);
    assert(js[11] == 58);
    assert(js.subrange(v1, w1) =~= bm);
    assert(js[w1] == 44);
    assert forall|k: int| v1 <= k < w1 implies crate::json::is_digit(js[k]) by {
        assert(js[k] == bm[k - v1]);
    }
    lemma_digits_prefix(js, v1, w1);
    lemma_digits_val_of_rep(ss.bufferMs as int, js, v1, w1);
    assert(spec_member_value(js, v1, buffer_key(), spec_empty_partial()) == Ok::<
        (int, PartialSettings),
        Error,
    >((w1, enc_acc1(ss))));
    lemma_parse_member_step(js, 1, spec_empty_partial(), buffer_key(), w1, enc_acc1(ss));
}

#[verifier::rlimit(100)]
#[verifier::spinoff_prover]
proof fn lemma_rt_member2(ss: ServerSettings)
    ensures
        spec_members(spec_encode_settings_json(ss), enc_w1(ss) + 1, enc_acc1(ss)) == spec_members(
            spec_encode_settings_json(ss),
            enc_w2(ss) + 1,
            enc_acc2(ss),
        ),
{
    let js = spec_encode_settings_json(ss);
    let lt = dec_digits(spec_lat_mag(ss.latency));
    let sgn = enc_sgn(ss);
    lemma_dec_digits_are_digits(spec_lat_mag(ss.latency));
    let i2 = enc_w1(ss) + 1;
    let v2 = i2 + 10;
    let w2 = enc_w2(ss);
    assert(js[i2] == 34);
    assert(js.subrange(i2 + 1, i2 + 8) =~= latency_key());
    assert(js[i2 + 8] == 34);
    assert(js[i2 + 9] == 58);
    assert(js.subrange(v2, v2 + sgn.len() as int) =~= sgn);
    assert(js.subrange(v2 + sgn.len() as int, w2) =~= lt);
    assert(js[w2] == 44);
    assert(latency_key() != buffer_key());
    if ss.latency >= 0 {
        assert forall|k: int| v2 <= k < w2 implies crate::json::is_digit(js[k]) by {
            assert(js[k] == lt[k - v2]);
        }
        lemma_digits_prefix(js, v2, w2);
        lemma_digits_val_of_rep(spec_lat_mag(ss.latency), js, v2, w2);
        assert(!(js[v2] == 45));
        assert(spec_member_value(js, v2, latency_key(), enc_acc1(ss)) == Ok::<
            (int, PartialSettings),
            Error,
        >((w2, enc_acc2(ss))));
    } else {
        assert(js[v2] == 45);
        assert forall|k: int| v2 + 1 <= k < w2 implies crate::json::is_digit(js[k]) by {
            assert(js[k] == lt[k - (v2 + 1)]);
        }
        lemma_digits_prefix(js, v2 + 1, w2);
        assert(js.subrange(v2 + 1, w2) =~= lt);
        lemma_digits_val_of_rep(spec_lat_mag(ss.latency), js, v2 + 1, w2);
        assert(spec_lat_mag(ss.latency) <= 0x8000_0000);
        assert((-spec_lat_mag(ss.latency)) as i32 == ss.latency);
        assert(spec_member_value(js, v2, latency_key(), enc_acc1(ss)) == Ok::<
            (int, PartialSettings),
            Error,
        >((w2, enc_acc2(ss))));
    }
    lemma_parse_member_step(js, i2, enc_acc1(ss), latency_key(), w2, enc_acc2(ss));
}

#[verifier::rlimit(100)]
#[verifier::spinoff_prover]
proof fn lemma_rt_member3(ss: ServerSettings)
    ensures
        spec_members(spec_encode_settings_json(ss), enc_w2(ss) + 1, enc_acc2(ss)) == spec_members(
            spec_encode_settings_json(ss),
            enc_w3(ss) + 1,
            enc_acc3(ss),
        ),
{
    let js = spec_encode_settings_json(ss);
    let mu = enc_mu(ss);
    let i3 = enc_w2(ss) + 1;
    let v3 = i3 + 8;
    let w3 = enc_w3(ss);
    assert(js[i3] == 34);
    assert(js.subrange(i3 + 1, i3 + 6) =~= muted_key());
    assert(js[i3 + 6] == 34);
    assert(js[i3 + 7] == 58);
    assert(js.subrange(v3, w3) =~= mu);
    assert(js[w3] == 44);
    assert(muted_key() != buffer_key() && muted_key() != latency_key());
    if ss.muted {
        assert(js[v3] == 116 && js[v3 + 1] == 114 && js[v3 + 2] == 117 && js[v3 + 3] == 101);
    } else {
        assert(js[v3] == 102 && js[v3 + 1] == 97 && js[v3 + 2] == 108 && js[v3 + 3] == 115 && js[v3
            + 4] == 101);
    }
    assert(spec_member_value(js, v3, muted_key(), enc_acc2(ss)) == Ok::<
        (int, PartialSettings),
        Error,
    >((w3, enc_acc3(ss))));
    lemma_parse_member_step(js, i3, enc_acc2(ss), muted_key(), w3, enc_acc3(ss));
}

#[verifier::rlimit(100)]
#[verifier::spinoff_prover]
proof fn lemma_rt_member4(ss: ServerSettings)
    ensures
        spec_members(spec_encode_settings_json(ss), enc_w3(ss) + 1, enc_acc3(ss)) == Ok::<
            (int, PartialSettings),
            Error,
        >((enc_w4(ss) + 1, enc_acc4(ss))),
        spec_encode_settings_json(ss).len() == enc_w4(ss) + 1,
{
    let js = spec_encode_settings_json(ss);
    let vo = dec_digits(ss.volume as int);
    lemma_dec_digits_are_digits(ss.volume as int);
    let i4 = enc_w3(ss) + 1;
    let v4 = i4 + 9;
    let w4 = enc_w4(ss);
    assert(js.len() == w4 + 1);
    assert(js[i4] == 34);
    assert(js.subrange(i4 + 1, i4 + 7) =~= volume_key());
    assert(js[i4 + 7] == 34);
    assert(js[i4 + 8] == 58);
    assert(js.subrange(v4, w4) =~= vo);
    assert(js[w4] == 125);
    assert(volume_key() != buffer_key() && volume_key() != latency_key() && volume_key()
        != muted_key());
    assert forall|k: int| v4 <= k < w4 implies crate::json::is_digit(js[k]) by {
        assert(js[k] == vo[k - v4]);
    }
    lemma_digits_prefix(js, v4, w4);
    lemma_digits_val_of_rep(ss.volume as int, js, v4, w4);
    assert(spec_member_value(js, v4, volume_key(), enc_acc3(ss)) == Ok::<
        (int, PartialSettings),
        Error,
    >((w4, enc_acc4(ss))));
    lemma_parse_member_step(js, i4, enc_acc3(ss), volume_key(), w4, enc_acc4(ss));
}

/// Encoding a settings record and parsing the payload back, with any
/// trailing garbage, recovers the record exactly.
#[verifier::rlimit(100)]
#[verifier::spinoff_prover]
pub proof fn lemma_settings_roundtrip(ss: ServerSettings, ext: Seq<u8>)
    ensures
        spec_parse_server_settings(spec_encode_server_settings(ss) + ext) == Ok::<
            ServerSettings,
            Error,
        >(ss),
{
    lemma_auto_spec_u32_to_from_le_bytes();
    let js = spec_encode_settings_json(ss);
    lemma_dec_digits_len(ss.bufferMs as int);
    lemma_dec_digits_len(spec_lat_mag(ss.latency));
    lemma_dec_digits_len(ss.volume as int);
    let payload = spec_encode_server_settings(ss) + ext;
    assert(payload.subrange(0, 4) =~= spec_u32_to_le_bytes(js.len() as u32));
    assert(spec_u32_at(payload, 0) == js.len());
    assert(payload.subrange(4, 4 + js.len() as int) =~= js);
    lemma_rt_member1(ss);
    lemma_rt_member2(ss);
    lemma_rt_member3(ss);
    lemma_rt_member4(ss);
    assert(spec_members(js, 1, spec_empty_partial()) == Ok::<(int, PartialSettings), Error>((
        enc_w4(ss) + 1,
        enc_acc4(ss),
    )));
    assert(js[0] == 123);
    assert(spec_skip_ws(js, 0) == 0);
    assert(spec_skip_ws(js, js.len() as int) == js.len());
    assert(spec_complete(enc_acc4(ss)) == Some(ss));
    assert(spec_parse_settings_json(js) == Ok::<ServerSettings, Error>(ss));
    assert(spec_parse_server_settings(payload) == Ok::<ServerSettings, Error>(ss));
}

} // verus!
