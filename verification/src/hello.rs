use crate::proto::{push_u32, spec_encode_base, Base, MessageType};
use crate::timeval::TimeVal;
use vstd::bytes::spec_u32_to_le_bytes;
use vstd::prelude::*;

verus! {

/// The greeting a client sends first: identity fields as length-prefixed
/// JSON.
#[allow(non_snake_case)]
#[derive(Clone, Debug)]
pub struct ClientHello {
    pub MAC: Vec<u8>,
    pub HostName: Vec<u8>,
    pub Version: Vec<u8>,
    pub ClientName: Vec<u8>,
    pub OS: Vec<u8>,
    pub Arch: Vec<u8>,
    pub Instance: u8,
    pub ID: Vec<u8>,
    pub SnapStreamProtocolVersion: u8,
}

pub open spec fn hex_digit(n: u8) -> u8
    recommends
        n < 16,
{
    if n < 10 {
        (48 + n) as u8
    } else {
        (87 + n) as u8
    }
}

/// How one byte appears inside a JSON string: quotes and backslashes are
/// escaped, control bytes written as a small hex escape, the rest verbatim.
pub open spec fn esc_byte(b: u8) -> Seq<u8> {
    if b == 34 || b == 92 {
        seq![92u8, b]
    } else if b < 32 {
        seq![92u8, 117u8, 48u8, 48u8, hex_digit(b / 16), hex_digit(b % 16)]
    } else {
        seq![b]
    }
}

pub open spec fn esc_all(s: Seq<u8>, i: int) -> Seq<u8>
    decreases s.len() - i when 0 <= i <= s.len()
{
    if i >= s.len() {
        Seq::<u8>::empty()
    } else {
        esc_byte(s[i]) + esc_all(s, i + 1)
    }
}

/// A byte string as a JSON string token.
pub open spec fn json_string(s: Seq<u8>) -> Seq<u8> {
    seq![34u8] + esc_all(s, 0) + seq![34u8]
}

/// Escaping at most multiplies the length by six.
pub proof fn lemma_esc_all_len(s: Seq<u8>, i: int)
    requires
        0 <= i <= s.len(),
    ensures
        esc_all(s, i).len() <= 6 * (s.len() - i),
    decreases s.len() - i,
{
    if i < s.len() {
        lemma_esc_all_len(s, i + 1);
    }
}

/// Append `s` as a JSON string token.
pub fn push_json_string(out: &mut Vec<u8>, s: &[u8])
    ensures
        final(out)@ == old(out)@ + json_string(s@),
{
    out.push(34);
    let n = s.len();
    let mut i: usize = 0;
    let ghost base = out@;
    loop
        invariant
            i <= n,
            n == s@.len(),
            out@ == base + esc_all(s@, 0).subrange(0, esc_all(s@, 0).len() as int - esc_all(
                s@,
                i as int,
            ).len()),
            esc_all(s@, 0) == out@.subrange(base.len() as int, out@.len() as int) + esc_all(
                s@,
                i as int,
            ),
        ensures
            i == n,
            out@ == base + esc_all(s@, 0),
        decreases n - i,
    {
        if i >= n {
            assert(out@ =~= base + esc_all(s@, 0));
            break ;
        }
        let ghost before = out@;
        let b = crate::json::byte_at(s, i);
        if b == 34 || b == 92 {
            out.push(92);
            out.push(b);
        } else if b < 32 {
            out.push(92);
            out.push(117);
            out.push(48);
            out.push(48);
            out.push(48 + b / 16);
            let low = b % 16;
            if low < 10 {
                out.push(48 + low);
            } else {
                out.push(87 + low);
            }
        }
        else {
            out.push(b);
        }
        proof {
            assert(out@ =~= before + esc_byte(s@[i as int]));
            assert(esc_all(s@, i as int) == esc_byte(s@[i as int]) + esc_all(s@, i + 1));
            assert(esc_all(s@, 0) =~= out@.subrange(base.len() as int, out@.len() as int)
                + esc_all(s@, i + 1));
            assert(out@ =~= base + esc_all(s@, 0).subrange(
                0,
                esc_all(s@, 0).len() as int - esc_all(s@, i + 1).len() as int,
            ));
        }
        i += 1;
    }
    out.push(34);
    assert(final(out)@ =~= old(out)@ + json_string(s@));
}

pub open spec fn mac_key() -> Seq<u8> {
    seq![77u8, 65u8, 67u8]
}

pub open spec fn hostname_key() -> Seq<u8> {
    seq![72u8, 111u8, 115u8, 116u8, 78u8, 97u8, 109u8, 101u8]
}

pub open spec fn version_key() -> Seq<u8> {
    seq![86u8, 101u8, 114u8, 115u8, 105u8, 111u8, 110u8]
}

pub open spec fn clientname_key() -> Seq<u8> {
    seq![67u8, 108u8, 105u8, 101u8, 110u8, 116u8, 78u8, 97u8, 109u8, 101u8]
}

pub open spec fn os_key() -> Seq<u8> {
    seq![79u8, 83u8]
}

pub open spec fn arch_key() -> Seq<u8> {
    seq![65u8, 114u8, 99u8, 104u8]
}

pub open spec fn instance_key() -> Seq<u8> {
    seq![73u8, 110u8, 115u8, 116u8, 97u8, 110u8, 99u8, 101u8]
}

pub open spec fn id_key() -> Seq<u8> {
    seq![73u8, 68u8]
}

pub open spec fn protover_key() -> Seq<u8> {
    seq![
        83u8, 110u8, 97u8, 112u8, 83u8, 116u8, 114u8, 101u8, 97u8, 109u8, 80u8, 114u8, 111u8,
        116u8, 111u8, 99u8, 111u8, 108u8, 86u8, 101u8, 114u8, 115u8, 105u8, 111u8, 110u8,
    ]
}

pub open spec fn quoted(key: Seq<u8>) -> Seq<u8> {
    seq![34u8] + key + seq![34u8]
}

/// The canonical hello JSON text: the nine fields in declaration order.
pub open spec fn spec_hello_json(h: ClientHello) -> Seq<u8> {
    seq![123u8] + quoted(mac_key()) + seq![58u8] + json_string(h.MAC@) + seq![44u8] + quoted(
        hostname_key(),
    ) + seq![58u8] + json_string(h.HostName@) + seq![44u8] + quoted(version_key()) + seq![58u8]
        + json_string(h.Version@) + seq![44u8] + quoted(clientname_key()) + seq![58u8]
        + json_string(h.ClientName@) + seq![44u8] + quoted(os_key()) + seq![58u8] + json_string(
        h.OS@,
    ) + seq![44u8] + quoted(arch_key()) + seq![58u8] + json_string(h.Arch@) + seq![44u8] + quoted(
        instance_key(),
    ) + seq![58u8] + crate::json::dec_digits(h.Instance as int) + seq![44u8] + quoted(id_key())
        + seq![58u8] + json_string(h.ID@) + seq![44u8] + quoted(protover_key()) + seq![58u8]
        + crate::json::dec_digits(h.SnapStreamProtocolVersion as int) + seq![125u8]
}

/// The hello payload: a 32-bit length prefix, then the JSON text.
pub open spec fn spec_hello_payload(h: ClientHello) -> Seq<u8> {
    spec_u32_to_le_bytes(spec_hello_json(h).len() as u32) + spec_hello_json(h)
}

/// All identity fields together must stay well under the frame cap.
pub open spec fn hello_fits(h: ClientHello) -> bool {
    h.MAC@.len() + h.HostName@.len() + h.Version@.len() + h.ClientName@.len() + h.OS@.len()
        + h.Arch@.len() + h.ID@.len() < 0x10000
}


fn key_mac() -> (r: Vec<u8>)
    ensures
        r@ == mac_key(),
{
    let mut k: Vec<u8> = Vec::new();
    k.push(77);
    k.push(65);
    k.push(67);
    assert(k@ =~= mac_key());
    k
}

fn key_hostname() -> (r: Vec<u8>)
    ensures
        r@ == hostname_key(),
{
    let mut k: Vec<u8> = Vec::new();
    k.push(72);
    k.push(111);
    k.push(115);
    k.push(116);
    k.push(78);
    k.push(97);
    k.push(109);
    k.push(101);
    assert(k@ =~= hostname_key());
    k
}

fn key_version() -> (r: Vec<u8>)
    ensures
        r@ == version_key(),
{
    let mut k: Vec<u8> = Vec::new();
    k.push(86);
    k.push(101);
    k.push(114);
    k.push(115);
    k.push(105);
    k.push(111);
    k.push(110);
    assert(k@ =~= version_key());
    k
}

fn key_clientname() -> (r: Vec<u8>)
    ensures
        r@ == clientname_key(),
{
    let mut k: Vec<u8> = Vec::new();
    k.push(67);
    k.push(108);
    k.push(105);
    k.push(101);
    k.push(110);
    k.push(116);
    k.push(78);
    k.push(97);
    k.push(109);
    k.push(101);
    assert(k@ =~= clientname_key());
    k
}

fn key_os() -> (r: Vec<u8>)
    ensures
        r@ == os_key(),
{
    let mut k: Vec<u8> = Vec::new();
    k.push(79);
    k.push(83);
    assert(k@ =~= os_key());
    k
}

fn key_arch() -> (r: Vec<u8>)
    ensures
        r@ == arch_key(),
{
    let mut k: Vec<u8> = Vec::new();
    k.push(65);
    k.push(114);
    k.push(99);
    k.push(104);
    assert(k@ =~= arch_key());
    k
}

fn key_instance() -> (r: Vec<u8>)
    ensures
        r@ == instance_key(),
{
    let mut k: Vec<u8> = Vec::new();
    k.push(73);
    k.push(110);
    k.push(115);
    k.push(116);
    k.push(97);
    k.push(110);
    k.push(99);
    k.push(101);
    assert(k@ =~= instance_key());
    k
}

fn key_id() -> (r: Vec<u8>)
    ensures
        r@ == id_key(),
{
    let mut k: Vec<u8> = Vec::new();
    k.push(73);
    k.push(68);
    assert(k@ =~= id_key());
    k
}

fn key_protover() -> (r: Vec<u8>)
    ensures
        r@ == protover_key(),
{
    let mut k: Vec<u8> = Vec::new();
    k.push(83);
    k.push(110);
    k.push(97);
    k.push(112);
    k.push(83);
    k.push(116);
    k.push(114);
    k.push(101);
    k.push(97);
    k.push(109);
    k.push(80);
    k.push(114);
    k.push(111);
    k.push(116);
    k.push(111);
    k.push(99);
    k.push(111);
    k.push(108);
    k.push(86);
    k.push(101);
    k.push(114);
    k.push(115);
    k.push(105);
    k.push(111);
    k.push(110);
    assert(k@ =~= protover_key());
    k
}

fn push_quoted_colon(out: &mut Vec<u8>, key: &[u8])
    ensures
        final(out)@ == old(out)@ + quoted(key@) + seq![58u8],
{
    out.push(34);
    let n = key.len();
    let mut i: usize = 0;
    while i < n
        invariant
            i <= n,
            n == key@.len(),
            out@ == old(out)@ + seq![34u8] + key@.subrange(0, i as int),
        decreases n - i,
    {
        let b = crate::json::byte_at(key, i);
        out.push(b);
        assert(out@ =~= old(out)@ + seq![34u8] + key@.subrange(0, i + 1));
        i += 1;
    }
    out.push(34);
    out.push(58);
    assert(key@.subrange(0, n as int) =~= key@);
    assert(final(out)@ =~= old(out)@ + quoted(key@) + seq![58u8]);
}

impl ClientHello {
    /// The full hello frame: header with zeroed clocks, then the
    /// length-prefixed JSON payload.
    #[verifier::rlimit(100)]
    #[verifier::spinoff_prover]
    pub fn as_buf(&self) -> (r: Vec<u8>)
        requires
            hello_fits(*self),
        ensures
            r@ == spec_encode_base(
                Base {
                    mtype: MessageType::Hello,
                    id: 0,
                    refers_to: 0,
                    sent_tv: TimeVal { sec: 0, usec: 0 },
                    received_tv: TimeVal { sec: 0, usec: 0 },
                    size: spec_hello_payload(*self).len() as u32,
                },
            ) + spec_hello_payload(*self),
    {
        let mut js: Vec<u8> = Vec::new();
        js.push(123);
        let mk = key_mac();
        push_quoted_colon(&mut js, mk.as_slice());
        push_json_string(&mut js, self.MAC.as_slice());
        js.push(44);
        let hk = key_hostname();
        push_quoted_colon(&mut js, hk.as_slice());
        push_json_string(&mut js, self.HostName.as_slice());
        js.push(44);
        let vk = key_version();
        push_quoted_colon(&mut js, vk.as_slice());
        push_json_string(&mut js, self.Version.as_slice());
        js.push(44);
        let ck = key_clientname();
        push_quoted_colon(&mut js, ck.as_slice());
        push_json_string(&mut js, self.ClientName.as_slice());
        js.push(44);
        let ok = key_os();
        push_quoted_colon(&mut js, ok.as_slice());
        push_json_string(&mut js, self.OS.as_slice());
        js.push(44);
        let ak = key_arch();
        push_quoted_colon(&mut js, ak.as_slice());
        push_json_string(&mut js, self.Arch.as_slice());
        js.push(44);
        let ik = key_instance();
        push_quoted_colon(&mut js, ik.as_slice());
        crate::json::push_dec_u64(&mut js, self.Instance as u64);
        js.push(44);
        let dk = key_id();
        push_quoted_colon(&mut js, dk.as_slice());
        push_json_string(&mut js, self.ID.as_slice());
        js.push(44);
        let pk = key_protover();
        push_quoted_colon(&mut js, pk.as_slice());
        crate::json::push_dec_u64(&mut js, self.SnapStreamProtocolVersion as u64);
        js.push(125);
        assert(js@ =~= spec_hello_json(*self));
        proof {
            lemma_esc_all_len(self.MAC@, 0);
            lemma_esc_all_len(self.HostName@, 0);
            lemma_esc_all_len(self.Version@, 0);
            lemma_esc_all_len(self.ClientName@, 0);
            lemma_esc_all_len(self.OS@, 0);
            lemma_esc_all_len(self.Arch@, 0);
            lemma_esc_all_len(self.ID@, 0);
            crate::json::lemma_dec_digits_len(self.Instance as int);
            crate::json::lemma_dec_digits_len(self.SnapStreamProtocolVersion as int);
        }
        let mut payload: Vec<u8> = Vec::new();
        push_u32(&mut payload, js.len() as u32);
        let jslen = js.len();
        payload.append(&mut js);
        assert(payload@ =~= spec_hello_payload(*self));
        let b = Base {
            mtype: MessageType::Hello,
            id: 0,
            refers_to: 0,
            sent_tv: TimeVal { sec: 0, usec: 0 },
            received_tv: TimeVal { sec: 0, usec: 0 },
            size: payload.len() as u32,
        };
        b.as_buf(payload.as_slice())
    }
}

// ---------------------------------------------------------------------------
// Reading canonical strings back
// ---------------------------------------------------------------------------

pub open spec fn is_hex(b: u8) -> bool {
    (48 <= b <= 57) || (97 <= b <= 102)
}

pub open spec fn hexval(b: u8) -> u8
    recommends
        is_hex(b),
{
    if b < 58 {
        (b - 48) as u8
    } else {
        (b - 87) as u8
    }
}

/// From just after an opening quote: the unescaped content and the index
/// just after the closing quote, for strings in the canonical escaping.
pub open spec fn spec_parse_jstring(s: Seq<u8>, i: int) -> Option<(int, Seq<u8>)>
    decreases s.len() - i when 0 <= i <= s.len()
{
    if i >= s.len() {
        None
    } else if s[i] == 34 {
        Some((i + 1, Seq::<u8>::empty()))
    } else if s[i] == 92 {
        if i + 2 <= s.len() && (s[i + 1] == 34 || s[i + 1] == 92) {
            match spec_parse_jstring(s, i + 2) {
                None => None,
                Some((e, t)) => Some((e, seq![s[i + 1]] + t)),
            }
        } else if i + 6 <= s.len() && s[i + 1] == 117 && s[i + 2] == 48 && s[i + 3] == 48 && is_hex(
            s[i + 4],
        ) && is_hex(s[i + 5]) {
            match spec_parse_jstring(s, i + 6) {
                None => None,
                Some((e, t)) => Some((e, seq![(hexval(s[i + 4]) * 16 + hexval(s[i + 5])) as u8] + t)),
            }
        } else {
            None
        }
    } else {
        match spec_parse_jstring(s, i + 1) {
            None => None,
            Some((e, t)) => Some((e, seq![s[i]] + t)),
        }
    }
}

pub proof fn lemma_parse_jstring_bounds(s: Seq<u8>, i: int)
    requires
        0 <= i <= s.len(),
    ensures
        match spec_parse_jstring(s, i) {
            Some((e, _)) => i < e <= s.len(),
            None => true,
        },
    decreases s.len() - i,
{
    if i < s.len() {
        if s[i] == 92 {
            if i + 2 <= s.len() && (s[i + 1] == 34 || s[i + 1] == 92) {
                lemma_parse_jstring_bounds(s, i + 2);
            } else if i + 6 <= s.len() && s[i + 1] == 117 && s[i + 2] == 48 && s[i + 3] == 48
                && is_hex(s[i + 4]) && is_hex(s[i + 5]) {
                lemma_parse_jstring_bounds(s, i + 6);
            }
        } else if s[i] != 34 {
            lemma_parse_jstring_bounds(s, i + 1);
        }
    }
}

/// Unescaping undoes the canonical escaping: the suffix of `v` from `j`,
/// escaped and closed by a quote, parses back to that suffix.
pub proof fn lemma_jstring_roundtrip(v: Seq<u8>, j: int, s: Seq<u8>, i: int)
    requires
        0 <= j <= v.len(),
        0 <= i,
        i + esc_all(v, j).len() < s.len(),
        s.subrange(i, i + esc_all(v, j).len() as int) == esc_all(v, j),
        s[i + esc_all(v, j).len() as int] == 34,
    ensures
        spec_parse_jstring(s, i) == Some(
            (i + esc_all(v, j).len() + 1, v.subrange(j, v.len() as int)),
        ),
    decreases v.len() - j,
{
    let e = esc_all(v, j);
    if j == v.len() {
        assert(e.len() == 0);
        assert(s[i] == 34);
        assert(v.subrange(j, v.len() as int) =~= Seq::<u8>::empty());
    } else {
        let b = v[j];
        let eb = esc_byte(b);
        let rest = esc_all(v, j + 1);
        assert(e == eb + rest);
        assert forall|k: int| 0 <= k < e.len() implies s[i + k] == #[trigger] e[k] by {
            assert(s.subrange(i, i + e.len() as int)[k] == e[k]);
        }
        assert(s.subrange(
            i + eb.len() as int,
            i + eb.len() as int + rest.len() as int,
        ) =~= rest) by {
            assert forall|k: int| 0 <= k < rest.len() implies #[trigger] rest[k] == e[eb.len()
                + k] by {
                assert(e[eb.len() + k] == (eb + rest)[eb.len() + k]);
            }
        }
        lemma_jstring_roundtrip(v, j + 1, s, i + eb.len() as int);
        if b == 34 || b == 92 {
            assert(e[0] == 92 && e[1] == b);
            assert(s[i] == 92 && s[i + 1] == b);
            assert(seq![b] + v.subrange(j + 1, v.len() as int) =~= v.subrange(j, v.len() as int));
        } else if b < 32 {
            assert(e[0] == 92 && e[1] == 117 && e[2] == 48 && e[3] == 48 && e[4] == hex_digit(
                b / 16,
            ) && e[5] == hex_digit(b % 16));
            assert(s[i] == 92 && s[i + 1] == 117 && s[i + 2] == 48 && s[i + 3] == 48);
            assert(s[i + 4] == hex_digit(b / 16) && s[i + 5] == hex_digit(b % 16));
            assert(is_hex(hex_digit(b / 16)) && hexval(hex_digit(b / 16)) == b / 16);
            assert(is_hex(hex_digit(b % 16)) && hexval(hex_digit(b % 16)) == b % 16);
            assert((hexval(s[i + 4]) * 16 + hexval(s[i + 5])) as u8 == b) by {
                vstd::arithmetic::div_mod::lemma_fundamental_div_mod(b as int, 16);
            }
            assert(seq![b] + v.subrange(j + 1, v.len() as int) =~= v.subrange(j, v.len() as int));
        } else {
            assert(e[0] == b);
            assert(s[i] == b && b != 34 && b != 92);
            assert(seq![b] + v.subrange(j + 1, v.len() as int) =~= v.subrange(j, v.len() as int));
        }
    }
}

/// Read one canonically escaped string from just after its opening quote.
pub fn parse_jstring(buf: &[u8], i: usize) -> (r: Option<(usize, Vec<u8>)>)
    requires
        i <= buf@.len(),
    ensures
        match r {
            Some((e, v)) => spec_parse_jstring(buf@, i as int) == Some((e as int, v@)) && i < e
                <= buf@.len(),
            None => spec_parse_jstring(buf@, i as int) is None,
        },
{
    proof {
        lemma_parse_jstring_bounds(buf@, i as int);
    }
    let n = buf.len();
    let mut j = i;
    let mut acc: Vec<u8> = Vec::new();
    loop
        invariant_except_break
            i <= j <= n,
            n == buf@.len(),
            match spec_parse_jstring(buf@, j as int) {
                Some((e, t)) => spec_parse_jstring(buf@, i as int) == Some((e, acc@ + t)),
                None => spec_parse_jstring(buf@, i as int) is None,
            },
        ensures
            spec_parse_jstring(buf@, i as int) matches Some((e, t)) && j < n && e == j + 1 && t
                =~= acc@,
        decreases n - j,
    {
        if j >= n {
            return None;
        }
        let b = crate::json::byte_at(buf, j);
        if b == 34 {
            assert(acc@ + Seq::<u8>::empty() =~= acc@);
            break ;
        } else if b == 92 {
            if n - j >= 2 && (crate::json::byte_at(buf, j + 1) == 34 || crate::json::byte_at(
                buf,
                j + 1,
            ) == 92) {
                let c = crate::json::byte_at(buf, j + 1);
                let ghost before = acc@;
                acc.push(c);
                proof {
                    if let Some((e, t)) = spec_parse_jstring(buf@, (j + 2) as int) {
                        assert(before + (seq![c] + t) =~= acc@ + t);
                    }
                }
                j += 2;
            } else if n - j >= 6 && crate::json::byte_at(buf, j + 1) == 117 && crate::json::byte_at(
                buf,
                j + 2,
            ) == 48 && crate::json::byte_at(buf, j + 3) == 48 {
                let h1 = crate::json::byte_at(buf, j + 4);
                let h2 = crate::json::byte_at(buf, j + 5);
                let hex1 = 48 <= h1 && h1 <= 57 || 97 <= h1 && h1 <= 102;
                let hex2 = 48 <= h2 && h2 <= 57 || 97 <= h2 && h2 <= 102;
                if !(hex1 && hex2) {
                    return None;
                }
                let v1: u8 = if h1 < 58 {
                    h1 - 48
                } else {
                    h1 - 87
                };
                let v2: u8 = if h2 < 58 {
                    h2 - 48
                } else {
                    h2 - 87
                };
                let c: u8 = v1 * 16 + v2;
                let ghost before = acc@;
                acc.push(c);
                proof {
                    if let Some((e, t)) = spec_parse_jstring(buf@, (j + 6) as int) {
                        assert(before + (seq![c] + t) =~= acc@ + t);
                    }
                }
                j += 6;
            } else {
                return None;
            }
        } else {
            let ghost before = acc@;
            acc.push(b);
            proof {
                if let Some((e, t)) = spec_parse_jstring(buf@, (j + 1) as int) {
                    assert(before + (seq![b] + t) =~= acc@ + t);
                }
            }
            j += 1;
        }
    }
    Some((j + 1, acc))
}

// ---------------------------------------------------------------------------
// Reading a canonical hello back
// ---------------------------------------------------------------------------

/// The mathematical shape of `ClientHello`.
#[allow(non_snake_case)]
pub struct ClientHelloView {
    pub MAC: Seq<u8>,
    pub HostName: Seq<u8>,
    pub Version: Seq<u8>,
    pub ClientName: Seq<u8>,
    pub OS: Seq<u8>,
    pub Arch: Seq<u8>,
    pub Instance: u8,
    pub ID: Seq<u8>,
    pub SnapStreamProtocolVersion: u8,
}

impl View for ClientHello {
    type V = ClientHelloView;

    open spec fn view(&self) -> ClientHelloView {
        ClientHelloView {
            MAC: self.MAC@,
            HostName: self.HostName@,
            Version: self.Version@,
            ClientName: self.ClientName@,
            OS: self.OS@,
            Arch: self.Arch@,
            Instance: self.Instance,
            ID: self.ID@,
            SnapStreamProtocolVersion: self.SnapStreamProtocolVersion,
        }
    }
}

/// `w` occurs verbatim at position `i`.
pub open spec fn has_at(s: Seq<u8>, i: int, w: Seq<u8>) -> bool {
    0 <= i && i + w.len() <= s.len() && s.subrange(i, i + w.len() as int) == w
}

/// The bytes opening a string member: quoted key, colon, opening quote.
pub open spec fn member_pre_str(key: Seq<u8>) -> Seq<u8> {
    seq![34u8] + key + seq![34u8, 58u8, 34u8]
}

/// The bytes opening a numeric member: quoted key, colon.
pub open spec fn member_pre_num(key: Seq<u8>) -> Seq<u8> {
    seq![34u8] + key + seq![34u8, 58u8]
}

/// One canonical string member at `i`: its unescaped value and the index
/// just after its closing quote.
pub open spec fn hello_step_str(js: Seq<u8>, i: int, key: Seq<u8>) -> Result<(int, Seq<u8>), crate::errors::Error> {
    if has_at(js, i, member_pre_str(key)) {
        match spec_parse_jstring(js, i + member_pre_str(key).len() as int) {
            None => Err(crate::errors::Error::MalformedPayload),
            Some((e, v)) => Ok((e, v)),
        }
    } else {
        Err(crate::errors::Error::MalformedPayload)
    }
}

/// One canonical byte-sized numeric member at `i`.
pub open spec fn hello_step_num(js: Seq<u8>, i: int, key: Seq<u8>) -> Result<(int, u8), crate::errors::Error> {
    if has_at(js, i, member_pre_num(key)) {
        match crate::json::spec_parse_number(js, i + member_pre_num(key).len() as int) {
            None => Err(crate::errors::Error::MalformedPayload),
            Some((e, val)) => if val <= 255 {
                Ok((e, val as u8))
            } else {
                Err(crate::errors::Error::MalformedPayload)
            },
        }
    } else {
        Err(crate::errors::Error::MalformedPayload)
    }
}

pub open spec fn comma_at(js: Seq<u8>, e: int) -> bool {
    0 <= e < js.len() && js[e] == 44
}

/// Meaning of the hello JSON text in the canonical form this library
/// emits: the nine fields in declaration order, compact, the object
/// spanning the whole text.
pub open spec fn spec_parse_hello_json(js: Seq<u8>) -> Result<ClientHelloView, crate::errors::Error> {
    if !(js.len() > 0 && js[0] == 123) {
        Err(crate::errors::Error::MalformedPayload)
    } else {
        match hello_step_str(js, 1, mac_key()) {
            Err(e) => Err(e),
            Ok((e1, mac)) => if !comma_at(js, e1) {
                Err(crate::errors::Error::MalformedPayload)
            } else {
                match hello_step_str(js, e1 + 1, hostname_key()) {
                    Err(e) => Err(e),
                    Ok((e2, hostname)) => if !comma_at(js, e2) {
                        Err(crate::errors::Error::MalformedPayload)
                    } else {
                        match hello_step_str(js, e2 + 1, version_key()) {
                            Err(e) => Err(e),
                            Ok((e3, version)) => if !comma_at(js, e3) {
                                Err(crate::errors::Error::MalformedPayload)
                            } else {
                                match hello_step_str(js, e3 + 1, clientname_key()) {
                                    Err(e) => Err(e),
                                    Ok((e4, clientname)) => if !comma_at(js, e4) {
                                        Err(crate::errors::Error::MalformedPayload)
                                    } else {
                                        match hello_step_str(js, e4 + 1, os_key()) {
                                            Err(e) => Err(e),
                                            Ok((e5, os)) => if !comma_at(js, e5) {
                                                Err(crate::errors::Error::MalformedPayload)
                                            } else {
                                                match hello_step_str(js, e5 + 1, arch_key()) {
                                                    Err(e) => Err(e),
                                                    Ok((e6, arch)) => if !comma_at(js, e6) {
                                                        Err(crate::errors::Error::MalformedPayload)
                                                    } else {
                                                        match hello_step_num(js, e6 + 1, instance_key()) {
                                                            Err(e) => Err(e),
                                                            Ok((e7, instance)) => if !comma_at(js, e7) {
                                                                Err(crate::errors::Error::MalformedPayload)
                                                            } else {
                                                                match hello_step_str(js, e7 + 1, id_key()) {
                                                                    Err(e) => Err(e),
                                                                    Ok((e8, id)) => if !comma_at(js, e8) {
                                                                        Err(crate::errors::Error::MalformedPayload)
                                                                    } else {
                                                                        match hello_step_num(js, e8 + 1, protover_key()) {
                                                                            Err(e) => Err(e),
                                                                            Ok((e9, protover)) => if e9 + 1 == js.len() && js[e9] == 125 {
                                                                                Ok(ClientHelloView {
                                                                                    MAC: mac,
                                                                                    HostName: hostname,
                                                                                    Version: version,
                                                                                    ClientName: clientname,
                                                                                    OS: os,
                                                                                    Arch: arch,
                                                                                    Instance: instance,
                                                                                    ID: id,
                                                                                    SnapStreamProtocolVersion: protover,
                                                                                })
                                                                            } else {
                                                                                Err(crate::errors::Error::MalformedPayload)
                                                                            },
                                                                        }
                                                                    },
                                                                }
                                                            },
                                                        }
                                                    },
                                                }
                                            },
                                        }
                                    },
                                }
                            },
                        }
                    },
                }
            },
        }
    }
}

/// Meaning of the hello payload: a 32-bit length prefix, then the
/// canonical JSON text; payload bytes past the declared length are
/// ignored.
pub open spec fn spec_parse_client_hello(payload: Seq<u8>) -> Result<ClientHelloView, crate::errors::Error> {
    if payload.len() < 4 {
        Err(crate::errors::Error::MalformedPayload)
    } else {
        let jlen = crate::proto::spec_u32_at(payload, 0);
        if 4 + jlen > payload.len() {
            Err(crate::errors::Error::MalformedPayload)
        } else {
            spec_parse_hello_json(payload.subrange(4, 4 + jlen as int))
        }
    }
}

/// True exactly when `w` occurs verbatim at position `i` of `buf`.
pub fn matches_at(buf: &[u8], i: usize, w: &[u8]) -> (r: bool)
    ensures
        r == has_at(buf@, i as int, w@),
{
    let n = buf.len();
    let m = w.len();
    if i > n || n - i < m {
        assert(!has_at(buf@, i as int, w@));
        return false;
    }
    let mut k: usize = 0;
    while k < m
        invariant
            k <= m,
            m == w@.len(),
            n == buf@.len(),
            i + m <= n,
            forall|j: int| 0 <= j < k ==> buf@[i + j] == w@[j],
        decreases m - k,
    {
        if crate::json::byte_at(buf, i + k) != crate::json::byte_at(w, k) {
            assert(buf@.subrange(i as int, i + m as int)[k as int] != w@[k as int]);
            return false;
        }
        k += 1;
    }
    assert(buf@.subrange(i as int, i + m as int) =~= w@);
    true
}

fn pre_str_of(key: &[u8]) -> (r: Vec<u8>)
    ensures
        r@ == member_pre_str(key@),
{
    let mut p: Vec<u8> = Vec::new();
    push_quoted_colon(&mut p, key);
    p.push(34);
    assert(p@ =~= member_pre_str(key@));
    p
}

fn pre_num_of(key: &[u8]) -> (r: Vec<u8>)
    ensures
        r@ == member_pre_num(key@),
{
    let mut p: Vec<u8> = Vec::new();
    push_quoted_colon(&mut p, key);
    assert(p@ =~= member_pre_num(key@));
    p
}

fn step_str(js: &[u8], i: usize, key: &[u8]) -> (r: Result<(usize, Vec<u8>), crate::errors::Error>)
    requires
        i <= js@.len(),
    ensures
        match r {
            Ok((e, v)) => hello_step_str(js@, i as int, key@) == Ok::<
                (int, Seq<u8>),
                crate::errors::Error,
            >((e as int, v@)) && i < e <= js@.len(),
            Err(er) => hello_step_str(js@, i as int, key@) == Err::<
                (int, Seq<u8>),
                crate::errors::Error,
            >(er),
        },
{
    let n = js.len();
    let pre = pre_str_of(key);
    if !matches_at(js, i, pre.as_slice()) {
        return Err(crate::errors::Error::MalformedPayload);
    }
    match parse_jstring(js, i + pre.len()) {
        None => Err(crate::errors::Error::MalformedPayload),
        Some((e, v)) => Ok((e, v)),
    }
}

fn step_num(js: &[u8], i: usize, key: &[u8]) -> (r: Result<(usize, u8), crate::errors::Error>)
    requires
        i <= js@.len(),
    ensures
        match r {
            Ok((e, v)) => hello_step_num(js@, i as int, key@) == Ok::<
                (int, u8),
                crate::errors::Error,
            >((e as int, v)) && i < e <= js@.len(),
            Err(er) => hello_step_num(js@, i as int, key@) == Err::<
                (int, u8),
                crate::errors::Error,
            >(er),
        },
{
    let n = js.len();
    let pre = pre_num_of(key);
    if !matches_at(js, i, pre.as_slice()) {
        return Err(crate::errors::Error::MalformedPayload);
    }
    proof {
        crate::json::lemma_digits_end_bounds(js@, (i + pre@.len()) as int);
    }
    match crate::json::parse_number_at(js, i + pre.len()) {
        None => Err(crate::errors::Error::MalformedPayload),
        Some((e, val)) => {
            if val <= 255 {
                Ok((e, val as u8))
            } else {
                Err(crate::errors::Error::MalformedPayload)
            }
        },
    }
}

impl ClientHello {
    /// Read a hello payload in the canonical form `as_buf` emits: the nine
    /// fields in declaration order, compact, with the canonical escaping.
    /// Payload bytes past the declared length are ignored.
    #[verifier::rlimit(100)]
    #[verifier::spinoff_prover]
    pub fn parse(payload: &[u8]) -> (r: Result<ClientHello, crate::errors::Error>)
        ensures
            match r {
                Ok(h) => spec_parse_client_hello(payload@) == Ok::<
                    ClientHelloView,
                    crate::errors::Error,
                >(h@),
                Err(e) => spec_parse_client_hello(payload@) == Err::<
                    ClientHelloView,
                    crate::errors::Error,
                >(e),
            },
    {
        let pn = payload.len();
        if pn < 4 {
            return Err(crate::errors::Error::MalformedPayload);
        }
        let jlen = crate::proto::u32_at(payload, 0);
        if jlen as usize > pn - 4 {
            return Err(crate::errors::Error::MalformedPayload);
        }
        let js = vstd::slice::slice_subrange(payload, 4, 4 + jlen as usize);
        let n = js.len();
        if !(n > 0 && crate::json::byte_at(js, 0) == 123) {
            return Err(crate::errors::Error::MalformedPayload);
        }
        let (e1, mac) = match step_str(js, 1, key_mac().as_slice()) {
            Err(e) => {
                return Err(e);
            },
            Ok(p) => p,
        };
        if !(e1 < n && crate::json::byte_at(js, e1) == 44) {
            return Err(crate::errors::Error::MalformedPayload);
        }
        let (e2, hostname) = match step_str(js, e1 + 1, key_hostname().as_slice()) {
            Err(e) => {
                return Err(e);
            },
            Ok(p) => p,
        };
        if !(e2 < n && crate::json::byte_at(js, e2) == 44) {
            return Err(crate::errors::Error::MalformedPayload);
        }
        let (e3, version) = match step_str(js, e2 + 1, key_version().as_slice()) {
            Err(e) => {
                return Err(e);
            },
            Ok(p) => p,
        };
        if !(e3 < n && crate::json::byte_at(js, e3) == 44) {
            return Err(crate::errors::Error::MalformedPayload);
        }
        let (e4, clientname) = match step_str(js, e3 + 1, key_clientname().as_slice()) {
            Err(e) => {
                return Err(e);
            },
            Ok(p) => p,
        };
        if !(e4 < n && crate::json::byte_at(js, e4) == 44) {
            return Err(crate::errors::Error::MalformedPayload);
        }
        let (e5, os) = match step_str(js, e4 + 1, key_os().as_slice()) {
            Err(e) => {
                return Err(e);
            },
            Ok(p) => p,
        };
        if !(e5 < n && crate::json::byte_at(js, e5) == 44) {
            return Err(crate::errors::Error::MalformedPayload);
        }
        let (e6, arch) = match step_str(js, e5 + 1, key_arch().as_slice()) {
            Err(e) => {
                return Err(e);
            },
            Ok(p) => p,
        };
        if !(e6 < n && crate::json::byte_at(js, e6) == 44) {
            return Err(crate::errors::Error::MalformedPayload);
        }
        let (e7, instance) = match step_num(js, e6 + 1, key_instance().as_slice()) {
            Err(e) => {
                return Err(e);
            },
            Ok(p) => p,
        };
        if !(e7 < n && crate::json::byte_at(js, e7) == 44) {
            return Err(crate::errors::Error::MalformedPayload);
        }
        let (e8, id) = match step_str(js, e7 + 1, key_id().as_slice()) {
            Err(e) => {
                return Err(e);
            },
            Ok(p) => p,
        };
        if !(e8 < n && crate::json::byte_at(js, e8) == 44) {
            return Err(crate::errors::Error::MalformedPayload);
        }
        let (e9, protover) = match step_num(js, e8 + 1, key_protover().as_slice()) {
            Err(e) => {
                return Err(e);
            },
            Ok(p) => p,
        };
        if !(e9 + 1 == n && crate::json::byte_at(js, e9) == 125) {
            return Err(crate::errors::Error::MalformedPayload);
        }
        Ok(
            ClientHello {
                MAC: mac,
                HostName: hostname,
                Version: version,
                ClientName: clientname,
                OS: os,
                Arch: arch,
                Instance: instance,
                ID: id,
                SnapStreamProtocolVersion: protover,
            },
        )
    }
}


// Offsets of the canonical hello text: the index just after each member's
// value.
pub open spec fn h_aft_str(off: int, key: Seq<u8>, v: Seq<u8>) -> int {
    off + key.len() + 4 + esc_all(v, 0).len() + 1
}

pub open spec fn h_aft_num(off: int, key: Seq<u8>, n: int) -> int {
    off + key.len() + 3 + crate::json::dec_digits(n).len()
}

pub open spec fn he1(h: ClientHello) -> int {
    h_aft_str(1, mac_key(), h.MAC@)
}

pub open spec fn he2(h: ClientHello) -> int {
    h_aft_str(he1(h) + 1, hostname_key(), h.HostName@)
}

pub open spec fn he3(h: ClientHello) -> int {
    h_aft_str(he2(h) + 1, version_key(), h.Version@)
}

pub open spec fn he4(h: ClientHello) -> int {
    h_aft_str(he3(h) + 1, clientname_key(), h.ClientName@)
}

pub open spec fn he5(h: ClientHello) -> int {
    h_aft_str(he4(h) + 1, os_key(), h.OS@)
}

pub open spec fn he6(h: ClientHello) -> int {
    h_aft_str(he5(h) + 1, arch_key(), h.Arch@)
}

pub open spec fn he7(h: ClientHello) -> int {
    h_aft_num(he6(h) + 1, instance_key(), h.Instance as int)
}

pub open spec fn he8(h: ClientHello) -> int {
    h_aft_str(he7(h) + 1, id_key(), h.ID@)
}

pub open spec fn he9(h: ClientHello) -> int {
    h_aft_num(he8(h) + 1, protover_key(), h.SnapStreamProtocolVersion as int)
}

/// One canonical string member parses to its value.
proof fn lemma_hello_member_str(js: Seq<u8>, off: int, key: Seq<u8>, v: Seq<u8>)
    requires
        0 <= off,
        has_at(js, off, member_pre_str(key)),
        has_at(js, off + key.len() + 4, esc_all(v, 0)),
        off + key.len() + 4 + esc_all(v, 0).len() < js.len(),
        js[off + key.len() + 4 + esc_all(v, 0).len() as int] == 34,
    ensures
        hello_step_str(js, off, key) == Ok::<(int, Seq<u8>), crate::errors::Error>(
            (h_aft_str(off, key, v), v),
        ),
{
    lemma_jstring_roundtrip(v, 0, js, off + key.len() + 4);
    assert(v.subrange(0, v.len() as int) =~= v);
}

/// One canonical numeric member parses to its value.
proof fn lemma_hello_member_num(js: Seq<u8>, off: int, key: Seq<u8>, n: int)
    requires
        0 <= off,
        0 <= n <= 255,
        has_at(js, off, member_pre_num(key)),
        has_at(js, off + key.len() + 3, crate::json::dec_digits(n)),
        h_aft_num(off, key, n) < js.len(),
        !crate::json::is_digit(js[h_aft_num(off, key, n)]),
    ensures
        hello_step_num(js, off, key) == Ok::<(int, u8), crate::errors::Error>(
            (h_aft_num(off, key, n), n as u8),
        ),
{
    let d = crate::json::dec_digits(n);
    let ds = off + key.len() + 3;
    let de = ds + d.len() as int;
    crate::json::lemma_dec_digits_are_digits(n);
    assert forall|k: int| ds <= k < de implies crate::json::is_digit(js[k]) by {
        assert(js.subrange(ds, de)[k - ds] == d[k - ds]);
        assert(js[k] == d[k - ds]);
    }
    crate::json::lemma_digits_prefix(js, ds, de);
    crate::json::lemma_digits_val_of_rep(n, js, ds, de);
}

#[verifier::rlimit(100)]
#[verifier::spinoff_prover]
proof fn lemma_hello_rt_m0(h: ClientHello)
    ensures
        spec_hello_json(h)[0] == 123,
        spec_hello_json(h)[he1(h)] == 44,
        he1(h) + 1 < spec_hello_json(h).len(),
{
    let js = spec_hello_json(h);
    assert(js[0] == 123);
    assert(js[he1(h)] == 44);
}

#[verifier::rlimit(100)]
#[verifier::spinoff_prover]
proof fn lemma_hello_rt_m1(h: ClientHello)
    ensures
        hello_step_str(spec_hello_json(h), 1int, mac_key()) == Ok::<
            (int, Seq<u8>),
            crate::errors::Error,
        >((he1(h), h.MAC@)),
{
    let js = spec_hello_json(h);
    let off = 1int;
    let v = h.MAC@;
    assert(js.subrange(off, off + 7) =~= member_pre_str(mac_key()));
    assert(js.subrange(off + 7, off + 7 + esc_all(v, 0).len() as int) =~= esc_all(
        v,
        0,
    ));
    assert(js[he1(h) - 1] == 34);
    assert(he1(h) < js.len());
    lemma_hello_member_str(js, off, mac_key(), v);
}

#[verifier::rlimit(100)]
#[verifier::spinoff_prover]
proof fn lemma_hello_rt_m2(h: ClientHello)
    ensures
        hello_step_str(spec_hello_json(h), he1(h) + 1, hostname_key()) == Ok::<
            (int, Seq<u8>),
            crate::errors::Error,
        >((he2(h), h.HostName@)),
        spec_hello_json(h)[he2(h)] == 44,
        he2(h) + 1 < spec_hello_json(h).len(),
{
    let js = spec_hello_json(h);
    let off = he1(h) + 1;
    let v = h.HostName@;
    assert(js.subrange(off, off + 12) =~= member_pre_str(hostname_key()));
    assert(js.subrange(off + 12, off + 12 + esc_all(v, 0).len() as int) =~= esc_all(
        v,
        0,
    ));
    assert(js[he2(h) - 1] == 34);
    lemma_hello_member_str(js, off, hostname_key(), v);
}

#[verifier::rlimit(100)]
#[verifier::spinoff_prover]
proof fn lemma_hello_rt_m3(h: ClientHello)
    ensures
        hello_step_str(spec_hello_json(h), he2(h) + 1, version_key()) == Ok::<
            (int, Seq<u8>),
            crate::errors::Error,
        >((he3(h), h.Version@)),
        spec_hello_json(h)[he3(h)] == 44,
        he3(h) + 1 < spec_hello_json(h).len(),
{
    let js = spec_hello_json(h);
    let off = he2(h) + 1;
    let v = h.Version@;
    assert(js.subrange(off, off + 11) =~= member_pre_str(version_key()));
    assert(js.subrange(off + 11, off + 11 + esc_all(v, 0).len() as int) =~= esc_all(
        v,
        0,
    ));
    assert(js[he3(h) - 1] == 34);
    lemma_hello_member_str(js, off, version_key(), v);
}

#[verifier::rlimit(100)]
#[verifier::spinoff_prover]
proof fn lemma_hello_rt_m4(h: ClientHello)
    ensures
        hello_step_str(spec_hello_json(h), he3(h) + 1, clientname_key()) == Ok::<
            (int, Seq<u8>),
            crate::errors::Error,
        >((he4(h), h.ClientName@)),
        spec_hello_json(h)[he4(h)] == 44,
        he4(h) + 1 < spec_hello_json(h).len(),
{
    let js = spec_hello_json(h);
    let off = he3(h) + 1;
    let v = h.ClientName@;
    assert(js.subrange(off, off + 14) =~= member_pre_str(clientname_key()));
    assert(js.subrange(off + 14, off + 14 + esc_all(v, 0).len() as int) =~= esc_all(
        v,
        0,
    ));
    assert(js[he4(h) - 1] == 34);
    lemma_hello_member_str(js, off, clientname_key(), v);
}

#[verifier::rlimit(100)]
#[verifier::spinoff_prover]
proof fn lemma_hello_rt_m5(h: ClientHello)
    ensures
        hello_step_str(spec_hello_json(h), he4(h) + 1, os_key()) == Ok::<
            (int, Seq<u8>),
            crate::errors::Error,
        >((he5(h), h.OS@)),
        spec_hello_json(h)[he5(h)] == 44,
        he5(h) + 1 < spec_hello_json(h).len(),
{
    let js = spec_hello_json(h);
    let off = he4(h) + 1;
    let v = h.OS@;
    assert(js.subrange(off, off + 6) =~= member_pre_str(os_key()));
    assert(js.subrange(off + 6, off + 6 + esc_all(v, 0).len() as int) =~= esc_all(
        v,
        0,
    ));
    assert(js[he5(h) - 1] == 34);
    lemma_hello_member_str(js, off, os_key(), v);
}

#[verifier::rlimit(100)]
#[verifier::spinoff_prover]
proof fn lemma_hello_rt_m6(h: ClientHello)
    ensures
        hello_step_str(spec_hello_json(h), he5(h) + 1, arch_key()) == Ok::<
            (int, Seq<u8>),
            crate::errors::Error,
        >((he6(h), h.Arch@)),
        spec_hello_json(h)[he6(h)] == 44,
        he6(h) + 1 < spec_hello_json(h).len(),
{
    let js = spec_hello_json(h);
    let off = he5(h) + 1;
    let v = h.Arch@;
    assert(js.subrange(off, off + 8) =~= member_pre_str(arch_key()));
    assert(js.subrange(off + 8, off + 8 + esc_all(v, 0).len() as int) =~= esc_all(
        v,
        0,
    ));
    assert(js[he6(h) - 1] == 34);
    lemma_hello_member_str(js, off, arch_key(), v);
}

#[verifier::rlimit(100)]
#[verifier::spinoff_prover]
proof fn lemma_hello_rt_m7(h: ClientHello)
    ensures
        hello_step_num(spec_hello_json(h), he6(h) + 1, instance_key()) == Ok::<
            (int, u8),
            crate::errors::Error,
        >((he7(h), (h.Instance as int) as u8)),
        spec_hello_json(h)[he7(h)] == 44,
        he7(h) + 1 < spec_hello_json(h).len(),
{
    let js = spec_hello_json(h);
    let off = he6(h) + 1;
    let n = h.Instance as int;
    crate::json::lemma_dec_digits_len(n);
    assert(js.subrange(off, off + 11) =~= member_pre_num(instance_key()));
    assert(js.subrange(off + 11, off + 11 + crate::json::dec_digits(n).len() as int)
        =~= crate::json::dec_digits(n));
    lemma_hello_member_num(js, off, instance_key(), n);
}

#[verifier::rlimit(100)]
#[verifier::spinoff_prover]
proof fn lemma_hello_rt_m8(h: ClientHello)
    ensures
        hello_step_str(spec_hello_json(h), he7(h) + 1, id_key()) == Ok::<
            (int, Seq<u8>),
            crate::errors::Error,
        >((he8(h), h.ID@)),
        spec_hello_json(h)[he8(h)] == 44,
        he8(h) + 1 < spec_hello_json(h).len(),
{
    let js = spec_hello_json(h);
    let off = he7(h) + 1;
    let v = h.ID@;
    assert(js.subrange(off, off + 6) =~= member_pre_str(id_key()));
    assert(js.subrange(off + 6, off + 6 + esc_all(v, 0).len() as int) =~= esc_all(
        v,
        0,
    ));
    assert(js[he8(h) - 1] == 34);
    lemma_hello_member_str(js, off, id_key(), v);
}

#[verifier::rlimit(100)]
#[verifier::spinoff_prover]
proof fn lemma_hello_rt_m9(h: ClientHello)
    ensures
        hello_step_num(spec_hello_json(h), he8(h) + 1, protover_key()) == Ok::<
            (int, u8),
            crate::errors::Error,
        >((he9(h), (h.SnapStreamProtocolVersion as int) as u8)),
        spec_hello_json(h)[he9(h)] == 125,
        spec_hello_json(h).len() == he9(h) + 1,
{
    let js = spec_hello_json(h);
    let off = he8(h) + 1;
    let n = h.SnapStreamProtocolVersion as int;
    crate::json::lemma_dec_digits_len(n);
    assert(js.subrange(off, off + 28) =~= member_pre_num(protover_key()));
    assert(js.subrange(off + 28, off + 28 + crate::json::dec_digits(n).len() as int)
        =~= crate::json::dec_digits(n));
    lemma_hello_member_num(js, off, protover_key(), n);
}

#[verifier::rlimit(100)]
#[verifier::spinoff_prover]
proof fn lemma_hello_json_roundtrip(h: ClientHello)
    ensures
        spec_parse_hello_json(spec_hello_json(h)) == Ok::<
            ClientHelloView,
            crate::errors::Error,
        >(h@),
{
    lemma_hello_rt_m0(h);
    lemma_hello_rt_m1(h);
    lemma_hello_rt_m2(h);
    lemma_hello_rt_m3(h);
    lemma_hello_rt_m4(h);
    lemma_hello_rt_m5(h);
    lemma_hello_rt_m6(h);
    lemma_hello_rt_m7(h);
    lemma_hello_rt_m8(h);
    lemma_hello_rt_m9(h);
}

/// Encoding a hello and parsing the payload back, with any trailing
/// garbage, recovers every field exactly.
#[verifier::rlimit(100)]
#[verifier::spinoff_prover]
pub proof fn lemma_hello_roundtrip(h: ClientHello, ext: Seq<u8>)
    requires
        hello_fits(h),
    ensures
        spec_parse_client_hello(spec_hello_payload(h) + ext) == Ok::<
            ClientHelloView,
            crate::errors::Error,
        >(h@),
{
    vstd::bytes::lemma_auto_spec_u32_to_from_le_bytes();
    let js = spec_hello_json(h);
    lemma_esc_all_len(h.MAC@, 0);
    lemma_esc_all_len(h.HostName@, 0);
    lemma_esc_all_len(h.Version@, 0);
    lemma_esc_all_len(h.ClientName@, 0);
    lemma_esc_all_len(h.OS@, 0);
    lemma_esc_all_len(h.Arch@, 0);
    lemma_esc_all_len(h.ID@, 0);
    crate::json::lemma_dec_digits_len(h.Instance as int);
    crate::json::lemma_dec_digits_len(h.SnapStreamProtocolVersion as int);
    let payload = spec_hello_payload(h) + ext;
    assert(payload.subrange(0, 4) =~= vstd::bytes::spec_u32_to_le_bytes(js.len() as u32));
    assert(crate::proto::spec_u32_at(payload, 0) == js.len());
    assert(payload.subrange(4, 4 + js.len() as int) =~= js);
    lemma_hello_json_roundtrip(h);
}

} // verus!
