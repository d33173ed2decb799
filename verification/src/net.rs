//! The launcher's network helpers: picking the public IPv6 address to
//! publish, the address to share with players, the firewall rule name,
//! and the text handling around the PowerShell calls.

use vstd::prelude::*;
use crate::text::{decimal, push_char, push_decimal, push_str};

verus! {

// ------------------------------------------------------------------ trimming

/// The characters with Unicode's `White_Space` property, which
/// `char::is_whitespace` tests.
pub open spec fn is_white_space(c: char) -> bool {
    ('\u{9}' <= c <= '\u{d}') || c == ' ' || c == '\u{85}' || c == '\u{a0}' || c == '\u{1680}'
        || ('\u{2000}' <= c <= '\u{200a}') || c == '\u{2028}' || c == '\u{2029}' || c == '\u{202f}'
        || c == '\u{205f}' || c == '\u{3000}'
}

/// `s` without leading whitespace.
pub open spec fn trim_start(s: Seq<char>) -> Seq<char>
    decreases s.len(),
{
    if s.len() > 0 && is_white_space(s[0]) { trim_start(s.drop_first()) } else { s }
}

/// `s` without trailing whitespace.
pub open spec fn trim_end(s: Seq<char>) -> Seq<char>
    decreases s.len(),
{
    if s.len() > 0 && is_white_space(s.last()) { trim_end(s.drop_last()) } else { s }
}

/// What `str::trim` leaves of `s`: `s` without leading and trailing
/// whitespace.
pub open spec fn trimmed(s: Seq<char>) -> Seq<char> {
    trim_end(trim_start(s))
}

fn white_space(c: char) -> (r: bool)
    ensures
        r == is_white_space(c),
{
    ('\u{9}' <= c && c <= '\u{d}') || c == ' ' || c == '\u{85}' || c == '\u{a0}' || c == '\u{1680}'
        || ('\u{2000}' <= c && c <= '\u{200a}') || c == '\u{2028}' || c == '\u{2029}' || c == '\u{202f}'
        || c == '\u{205f}' || c == '\u{3000}'
}

proof fn lemma_trim_start(s: Seq<char>, i: int)
    requires
        0 <= i <= s.len(),
        forall|k: int| 0 <= k < i ==> is_white_space(#[trigger] s[k]),
        i == s.len() || !is_white_space(s[i]),
    ensures
        trim_start(s) == s.subrange(i, s.len() as int),
    decreases i,
{
    if i == 0 {
        assert(s.subrange(0, s.len() as int) =~= s);
    } else {
        let t = s.drop_first();
        assert forall|k: int| 0 <= k < i - 1 implies is_white_space(#[trigger] t[k]) by {
            assert(t[k] == s[k + 1]);
        }
        lemma_trim_start(t, i - 1);
        assert(t.subrange(i - 1, t.len() as int) =~= s.subrange(i, s.len() as int));
    }
}

proof fn lemma_trim_end(s: Seq<char>, j: int)
    requires
        0 <= j <= s.len(),
        forall|k: int| j <= k < s.len() ==> is_white_space(#[trigger] s[k]),
        j == 0 || !is_white_space(s[j - 1]),
    ensures
        trim_end(s) == s.subrange(0, j),
    decreases s.len() - j,
{
    if j == s.len() {
        assert(s.subrange(0, j) =~= s);
    } else {
        let t = s.drop_last();
        assert forall|k: int| j <= k < t.len() implies is_white_space(#[trigger] t[k]) by {
            assert(t[k] == s[k]);
        }
        lemma_trim_end(t, j);
        assert(t.subrange(0, j) =~= s.subrange(0, j));
    }
}

/// `s` without leading and trailing whitespace (characters with Unicode's
/// `White_Space` property, which `str::trim` drops).
pub fn trim(s: &str) -> (r: String)
    ensures
        r@ == trimmed(s@),
{
    let mut cs: Vec<char> = Vec::new();
    for c in it: s.chars()
        invariant
            it.seq() == s@,
            cs@ == s@.take(it.index()),
    {
        cs.push(c);
    }
    assert(cs@ =~= s@);
    let n = cs.len();
    let mut i: usize = 0;
    while i < n && white_space(cs[i])
        invariant
            i <= n == cs@.len(),
            forall|k: int| 0 <= k < i ==> is_white_space(#[trigger] cs@[k]),
        decreases n - i,
    {
        i = i + 1;
    }
    let mut j: usize = n;
    while j > i && white_space(cs[j - 1])
        invariant
            i <= j <= n == cs@.len(),
            forall|k: int| j <= k < n ==> is_white_space(#[trigger] cs@[k]),
        decreases j,
    {
        j = j - 1;
    }
    let mut out = String::new();
    let mut k: usize = i;
    while k < j
        invariant
            i <= k <= j <= n == cs@.len(),
            out@ == cs@.subrange(i as int, k as int),
        decreases j - k,
    {
        push_char(&mut out, cs[k]);
        k = k + 1;
        assert(out@ =~= cs@.subrange(i as int, k as int));
    }
    proof {
        let a = s@;
        lemma_trim_start(a, i as int);
        let t = a.subrange(i as int, a.len() as int);
        assert forall|q: int| j - i <= q < t.len() implies is_white_space(#[trigger] t[q]) by {
            assert(t[q] == a[q + i]);
        }
        if j > i {
            assert(t[j - i - 1] == a[j - 1]);
        }
        lemma_trim_end(t, j - i);
        assert(t.subrange(0, j - i) =~= a.subrange(i as int, j as int));
    }
    out
}

// ------------------------------------------------------------------ JSON span

pub open spec fn is_open(c: char) -> bool {
    c == '[' || c == '{'
}

pub open spec fn is_close(c: char) -> bool {
    c == ']' || c == '}'
}

/// Whether `s` has an opening bracket before a closing one.
pub open spec fn has_span(s: Seq<char>) -> bool {
    exists|i: int, j: int| 0 <= i < j < s.len() && is_open(s[i]) && is_close(s[j])
}

/// `t` is the part of `s` from its first opening bracket to its last
/// closing bracket, both included.
pub open spec fn is_json_span(s: Seq<char>, t: Seq<char>) -> bool {
    exists|a: int, b: int| {
        &&& 0 <= a < b < s.len()
        &&& is_open(s[a])
        &&& is_close(s[b])
        &&& (forall|k: int| 0 <= k < a ==> !is_open(#[trigger] s[k]))
        &&& (forall|k: int| b < k < s.len() ==> !is_close(#[trigger] s[k]))
        &&& t == s.subrange(a, b + 1)
    }
}

/// The JSON in a command's output that may carry noise around it: from
/// the first `[` or `{` to the last `]` or `}`; `None` when there is no
/// opening bracket before a closing one.
pub fn extract_json(text: &str) -> (r: Option<&str>)
    ensures
        r is None <==> !has_span(text@),
        r matches Some(t) ==> is_json_span(text@, t@),
{
    let n = text.unicode_len();
    let mut start: usize = 0;
    while start < n && !(text.get_char(start) == '[' || text.get_char(start) == '{')
        invariant
            n == text@.len(),
            start <= n,
            forall|k: int| 0 <= k < start ==> !is_open(#[trigger] text@[k]),
        decreases n - start,
    {
        start = start + 1;
    }
    if start == n {
        assert(!has_span(text@)) by {
            if has_span(text@) {
                let (i, j) = choose|i: int, j: int| 0 <= i < j < text@.len() && is_open(text@[i]) && is_close(text@[j]);
                assert(!is_open(text@[i]));
            }
        }
        return None;
    }
    let mut end: usize = n;
    while end > 0 && !(text.get_char(end - 1) == ']' || text.get_char(end - 1) == '}')
        invariant
            n == text@.len(),
            end <= n,
            forall|k: int| end <= k < n ==> !is_close(#[trigger] text@[k]),
        decreases end,
    {
        end = end - 1;
    }
    if end == 0 || end - 1 <= start {
        assert(!has_span(text@)) by {
            if has_span(text@) {
                let (i, j) = choose|i: int, j: int| 0 <= i < j < text@.len() && is_open(text@[i]) && is_close(text@[j]);
                if i < start {
                    assert(!is_open(text@[i]));
                }
                if j >= end {
                    assert(!is_close(text@[j]));
                }
            }
        }
        return None;
    }
    let last = end - 1;
    assert(is_open(text@[start as int]) && is_close(text@[last as int]));
    assert(has_span(text@));
    let t = text.substring_char(start, end);
    assert(is_json_span(text@, t@));
    Some(t)
}

// ------------------------------------------------------------------ base64

pub open spec fn b64_table() -> Seq<char> {
    seq!['A', 'B', 'C', 'D', 'E', 'F', 'G', 'H', 'I', 'J', 'K', 'L', 'M', 'N', 'O', 'P',
         'Q', 'R', 'S', 'T', 'U', 'V', 'W', 'X', 'Y', 'Z', 'a', 'b', 'c', 'd', 'e', 'f',
         'g', 'h', 'i', 'j', 'k', 'l', 'm', 'n', 'o', 'p', 'q', 'r', 's', 't', 'u', 'v',
         'w', 'x', 'y', 'z', '0', '1', '2', '3', '4', '5', '6', '7', '8', '9', '+', '/']
}

/// The four characters of one group of up to three bytes (`len` of them
/// present, the others taken as zero); missing positions are `=`.
pub open spec fn b64_group(b0: u8, b1: u8, b2: u8, len: nat) -> Seq<char> {
    seq![
        b64_table()[b0 as int / 4],
        b64_table()[(b0 as int % 4) * 16 + b1 as int / 16],
        if len > 1 { b64_table()[(b1 as int % 16) * 4 + b2 as int / 64] } else { '=' },
        if len > 2 { b64_table()[b2 as int % 64] } else { '=' },
    ]
}

/// Standard base64 with padding.
pub open spec fn base64_of(d: Seq<u8>) -> Seq<char>
    decreases d.len(),
{
    if d.len() == 0 {
        seq![]
    } else if d.len() == 1 {
        b64_group(d[0], 0, 0, 1)
    } else if d.len() == 2 {
        b64_group(d[0], d[1], 0, 2)
    } else {
        b64_group(d[0], d[1], d[2], 3) + base64_of(d.subrange(3, d.len() as int))
    }
}

fn b64_char(i: u32) -> (c: char)
    requires
        i < 64,
    ensures
        c == b64_table()[i as int],
{
    let table: [char; 64] = ['A', 'B', 'C', 'D', 'E', 'F', 'G', 'H', 'I', 'J', 'K', 'L', 'M', 'N', 'O', 'P',
                             'Q', 'R', 'S', 'T', 'U', 'V', 'W', 'X', 'Y', 'Z', 'a', 'b', 'c', 'd', 'e', 'f',
                             'g', 'h', 'i', 'j', 'k', 'l', 'm', 'n', 'o', 'p', 'q', 'r', 's', 't', 'u', 'v',
                             'w', 'x', 'y', 'z', '0', '1', '2', '3', '4', '5', '6', '7', '8', '9', '+', '/'];
    assert(table@ == b64_table());
    table[i as usize]
}

/// Base64 encoding (standard alphabet, `=` padding).
pub fn base64(data: &[u8]) -> (r: String)
    ensures
        r@ == base64_of(data@),
{
    let mut out = String::new();
    let n = data.len();
    let mut i: usize = 0;
    assert(data@.subrange(0, n as int) =~= data@);
    while i < n
        invariant
            i <= n,
            n == data@.len(),
            out@ + base64_of(data@.subrange(i as int, n as int)) == base64_of(data@),
        decreases n - i,
    {
        let rest = n - i;
        let b0 = data[i];
        let b1: u8 = if rest > 1 { data[i + 1] } else { 0 };
        let b2: u8 = if rest > 2 { data[i + 2] } else { 0 };
        let len: usize = if rest > 3 { 3 } else { rest };
        let ghost tail = data@.subrange(i as int, n as int);
        let ghost before = out@;
        push_char(&mut out, b64_char((b0 / 4) as u32));
        push_char(&mut out, b64_char(((b0 % 4) as u32) * 16 + (b1 / 16) as u32));
        if len > 1 {
            push_char(&mut out, b64_char(((b1 % 16) as u32) * 4 + (b2 / 64) as u32));
        } else {
            push_char(&mut out, '=');
        }
        if len > 2 {
            push_char(&mut out, b64_char((b2 % 64) as u32));
        } else {
            push_char(&mut out, '=');
        }
        assert(out@ =~= before + b64_group(b0, b1, b2, len as nat));
        let next = if rest > 3 { i + 3 } else { n };
        if rest > 3 {
            assert(tail.subrange(3, tail.len() as int) =~= data@.subrange(next as int, n as int));
            assert(base64_of(tail) == b64_group(b0, b1, b2, 3) + base64_of(tail.subrange(3, tail.len() as int)));
        } else {
            assert(data@.subrange(next as int, n as int) =~= Seq::<u8>::empty());
            if rest == 3 {
                assert(tail.subrange(3, tail.len() as int) =~= Seq::<u8>::empty());
            }
        }
        assert(out@ + base64_of(data@.subrange(next as int, n as int)) =~= base64_of(data@));
        i = next;
    }
    assert(base64_of(data@.subrange(n as int, n as int)) =~= Seq::<char>::empty()) by {
        assert(data@.subrange(n as int, n as int) =~= Seq::<u8>::empty());
    }
    assert(out@ =~= base64_of(data@));
    out
}

proof fn lemma_group_chars(b0: u8, b1: u8, b2: u8, len: nat)
    ensures
        b64_group(b0, b1, b2, len).len() == 4,
        forall|i: int| 0 <= i < 4 ==> b64_table().contains(#[trigger] b64_group(b0, b1, b2, len)[i]) || b64_group(b0, b1, b2, len)[i] == '=',
{
    let t = b64_table();
    let g = b64_group(b0, b1, b2, len);
    let i0 = b0 as int / 4;
    let i1 = (b0 as int % 4) * 16 + b1 as int / 16;
    let i2 = (b1 as int % 16) * 4 + b2 as int / 64;
    let i3 = b2 as int % 64;
    assert(0 <= i0 < 64 && 0 <= i1 < 64 && 0 <= i2 < 64 && 0 <= i3 < 64);
    assert(t.contains(t[i0]) && t.contains(t[i1]) && t.contains(t[i2]) && t.contains(t[i3]));
    assert(g[0] == t[i0] && g[1] == t[i1]);
}

/// Base64 text is four characters for every started group of three
/// bytes, each a table character or padding.
pub proof fn lemma_base64_shape(d: Seq<u8>)
    ensures
        base64_of(d).len() == 4 * ((d.len() + 2) / 3),
        forall|i: int| 0 <= i < base64_of(d).len() ==> b64_table().contains(#[trigger] base64_of(d)[i]) || base64_of(d)[i] == '=',
    decreases d.len(),
{
    let s = base64_of(d);
    if d.len() == 0 {
    } else if d.len() <= 3 {
        let g = if d.len() == 1 {
            b64_group(d[0], 0, 0, 1)
        } else if d.len() == 2 {
            b64_group(d[0], d[1], 0, 2)
        } else {
            b64_group(d[0], d[1], d[2], 3)
        };
        lemma_group_chars(d[0], if d.len() > 1 { d[1] } else { 0 }, if d.len() > 2 { d[2] } else { 0 }, d.len());
        if d.len() == 3 {
            assert(d.subrange(3, 3) =~= Seq::<u8>::empty());
            assert(base64_of(d.subrange(3, 3)) =~= Seq::<char>::empty());
        }
        assert(s =~= g);
    } else {
        let rest = d.subrange(3, d.len() as int);
        lemma_base64_shape(rest);
        let g = b64_group(d[0], d[1], d[2], 3);
        lemma_group_chars(d[0], d[1], d[2], 3);
        assert(s == g + base64_of(rest));
        assert forall|i: int| 0 <= i < s.len() implies b64_table().contains(#[trigger] s[i]) || s[i] == '=' by {
            if i < 4 {
                assert(s[i] == g[i]);
            } else {
                assert(s[i] == base64_of(rest)[i - 4]);
            }
        }
    }
}


// ------------------------------------------------------------------ addresses

/// What the launcher reads of one IPv6 address of the machine.
#[derive(Clone, Debug)]
pub struct V6Info {
    pub address: String,
    pub iface: String,
    pub suffix: String,
    /// Valid lifetime in seconds.
    pub valid: i64,
    /// Preferred lifetime in seconds.
    pub preferred: i64,
    pub state: String,
    /// Whether the address is a global unicast address (2000::/3).
    pub gua: bool,
}

/// Global unicast IPv6 (2000::/3), given the eight 16-bit segments of the
/// address; loopback, unspecified, multicast and IPv4-mapped addresses are
/// excluded.
pub open spec fn spec_is_gua(seg: Seq<u16>) -> bool {
    let zero6 = seg[0] == 0 && seg[1] == 0 && seg[2] == 0 && seg[3] == 0 && seg[4] == 0 && seg[5] == 0;
    let loopback = zero6 && seg[6] == 0 && seg[7] == 1;
    let unspecified = zero6 && seg[6] == 0 && seg[7] == 0;
    let multicast = seg[0] >= 0xff00;
    let v4_mapped = seg[0] == 0 && seg[1] == 0 && seg[2] == 0 && seg[3] == 0 && seg[4] == 0 && seg[5] == 0xffff;
    !loopback && !unspecified && !multicast && !v4_mapped && 0x2000 <= seg[0] < 0x4000
}

/// Whether the address with these segments is a global unicast address.
pub fn is_gua(seg: [u16; 8]) -> (r: bool)
    ensures
        r == spec_is_gua(seg@),
{
    let loopback = seg[0] == 0 && seg[1] == 0 && seg[2] == 0 && seg[3] == 0 && seg[4] == 0 && seg[5] == 0 && seg[6] == 0 && seg[7] == 1;
    let unspecified = seg[0] == 0 && seg[1] == 0 && seg[2] == 0 && seg[3] == 0 && seg[4] == 0 && seg[5] == 0 && seg[6] == 0 && seg[7] == 0;
    let multicast = seg[0] >= 0xff00;
    if loopback || unspecified || multicast {
        return false;
    }
    if seg[0] == 0 && seg[1] == 0 && seg[2] == 0 && seg[3] == 0 && seg[4] == 0 && seg[5] == 0xffff {
        return false;
    }
    let s0 = seg[0];
    let top = s0 & 0xe000;
    assert(top == 0x2000 <==> 0x2000 <= s0 < 0x4000) by (bit_vector)
        requires
            top == s0 & 0xe000,
    ;
    top == 0x2000
}

/// Of all the exclusions, only the prefix matters: an address is global
/// unicast exactly when its first segment lies in 0x2000..0x4000.
pub proof fn lemma_gua_is_prefix(seg: Seq<u16>)
    requires
        seg.len() == 8,
    ensures
        spec_is_gua(seg) <==> 0x2000 <= seg[0] < 0x4000,
{
}

/// The address to publish: the first global unicast one of the list
/// (which comes ranked, best first).
pub fn best_address(list: &[V6Info]) -> (r: Option<&V6Info>)
    ensures
        r is None <==> forall|i: int| 0 <= i < list@.len() ==> !(#[trigger] list@[i]).gua,
        r matches Some(x) ==> exists|i: int| 0 <= i < list@.len() && list@[i] == *x && x.gua
            && forall|k: int| 0 <= k < i ==> !(#[trigger] list@[k]).gua,
{
    let mut i: usize = 0;
    while i < list.len()
        invariant
            i <= list@.len(),
            forall|k: int| 0 <= k < i ==> !(#[trigger] list@[k]).gua,
        decreases list@.len() - i,
    {
        if list[i].gua {
            return Some(&list[i]);
        }
        i = i + 1;
    }
    None
}

/// The address players enter: the domain when one is set, else the
/// address in brackets, else a placeholder; then `:port`.
pub open spec fn share_text(domain: Seq<char>, address: Option<Seq<char>>, port: u16) -> Seq<char> {
    let host = if trimmed(domain).len() > 0 {
        trimmed(domain)
    } else {
        match address {
            Some(a) => "["@ + a + "]"@,
            None => "<未检测到公网 IPv6>"@,
        }
    };
    host + ":"@ + decimal(port as nat)
}

pub open spec fn opt_str_view(a: Option<&str>) -> Option<Seq<char>> {
    match a {
        Some(a) => Some(a@),
        None => None,
    }
}

/// The address to give to players.
pub fn share_target(domain: &str, address: Option<&str>, port: u16) -> (r: String)
    ensures
        r@ == share_text(domain@, opt_str_view(address), port),
{
    let d_text = trim(domain);
    let d = d_text.as_str();
    let mut out = String::new();
    if !d.is_empty() {
        push_str(&mut out, d);
    } else {
        match address {
            Some(a) => {
                push_str(&mut out, "[");
                push_str(&mut out, a);
                push_str(&mut out, "]");
            },
            None => push_str(&mut out, "<未检测到公网 IPv6>"),
        }
    }
    push_str(&mut out, ":");
    push_decimal(&mut out, port as u64);
    assert(out@ =~= share_text(domain@, opt_str_view(address), port));
    out
}

pub open spec fn firewall_rule_text(port: u16) -> Seq<char> {
    "Phira Launcher (TCP "@ + decimal(port as nat) + ")"@
}

/// Name of the inbound firewall rule for `port`.
pub fn firewall_rule_name(port: u16) -> (r: String)
    ensures
        r@ == firewall_rule_text(port),
{
    let mut out = String::new();
    push_str(&mut out, "Phira Launcher (TCP ");
    push_decimal(&mut out, port as u64);
    push_str(&mut out, ")");
    assert(out@ =~= firewall_rule_text(port));
    out
}

// ------------------------------------------------------------------ ranking

/// The code of a character in ASCII lower case; other characters keep
/// their code.
pub open spec fn ascii_lower(c: char) -> u32 {
    if 'A' <= c <= 'Z' { ((c as u32) + 32) as u32 } else { c as u32 }
}

/// Equality of two texts ignoring ASCII case (`str::eq_ignore_ascii_case`).
pub open spec fn eq_ignore_ascii_case(a: Seq<char>, b: Seq<char>) -> bool {
    a.len() == b.len() && forall|i: int| 0 <= i < a.len() ==> ascii_lower(#[trigger] a[i]) == ascii_lower(b[i])
}

pub open spec fn preferred_word() -> Seq<char> {
    seq!['p', 'r', 'e', 'f', 'e', 'r', 'r', 'e', 'd']
}

fn lower(c: char) -> (r: u32)
    ensures
        r == ascii_lower(c),
{
    if 'A' <= c && c <= 'Z' {
        (c as u32) + 32
    } else {
        c as u32
    }
}

/// Whether an address state reads `Preferred`, in any ASCII case.
pub fn is_preferred_state(state: &str) -> (r: bool)
    ensures
        r == eq_ignore_ascii_case(state@, preferred_word()),
{
    let word: [char; 9] = ['p', 'r', 'e', 'f', 'e', 'r', 'r', 'e', 'd'];
    assert(word@ == preferred_word());
    let n = state.unicode_len();
    if n != 9 {
        return false;
    }
    let mut i: usize = 0;
    while i < 9
        invariant
            i <= 9,
            n == state@.len(),
            n == 9,
            word@ == preferred_word(),
            forall|k: int| 0 <= k < i ==> ascii_lower(#[trigger] state@[k]) == ascii_lower(preferred_word()[k]),
        decreases 9 - i,
    {
        if lower(state.get_char(i)) != lower(word[i]) {
            return false;
        }
        i = i + 1;
    }
    true
}

/// What addresses are ranked by.
#[derive(Clone, Copy, Debug, PartialEq, Eq, Structural)]
pub struct AddrKey {
    pub gua: bool,
    pub preferred: bool,
    pub valid: i64,
}

/// `a` ranks strictly before `b`: global unicast first, then the longer
/// valid lifetime (temporary addresses expire, the longest-lived one is
/// the one to publish), then the `Preferred` state.
pub open spec fn key_before(a: AddrKey, b: AddrKey) -> bool {
    (a.gua && !b.gua) || (a.gua == b.gua && (a.valid > b.valid || (a.valid == b.valid && a.preferred && !b.preferred)))
}

/// `r` lists the indices of `keys` once each, best first, equal keys in
/// their order in `keys`.
pub open spec fn is_ranking(keys: Seq<AddrKey>, r: Seq<usize>) -> bool {
    &&& r.len() == keys.len()
    &&& forall|p: int| 0 <= p < r.len() ==> (#[trigger] r[p]) < keys.len()
    &&& forall|p: int, q: int| 0 <= p < q < r.len() ==> r[p] != r[q]
    &&& forall|p: int, q: int| 0 <= p < q < r.len() ==>
            key_before(keys[r[p] as int], keys[r[q] as int]) || (keys[r[p] as int] == keys[r[q] as int] && r[p] < r[q])
}

pub open spec fn key_of(a: V6Info) -> AddrKey {
    AddrKey { gua: a.gua, preferred: eq_ignore_ascii_case(a.state@, preferred_word()), valid: a.valid }
}

fn precedes(a: AddrKey, b: AddrKey) -> (r: bool)
    ensures
        r == key_before(a, b),
{
    (a.gua && !b.gua) || (a.gua == b.gua && (a.valid > b.valid || (a.valid == b.valid && a.preferred && !b.preferred)))
}

/// The order in which to list `keys`: see [`is_ranking`].
pub fn rank_keys(keys: &Vec<AddrKey>) -> (r: Vec<usize>)
    ensures
        is_ranking(keys@, r@),
{
    let n = keys.len();
    let mut r: Vec<usize> = Vec::new();
    let mut i: usize = 0;
    while i < n
        invariant
            i <= n,
            n == keys@.len(),
            r@.len() == i,
            forall|p: int| 0 <= p < r@.len() ==> (#[trigger] r@[p]) < i,
            forall|p: int, q: int| 0 <= p < q < r@.len() ==> r@[p] != r@[q],
            forall|p: int, q: int| 0 <= p < q < r@.len() ==>
                key_before(keys@[r@[p] as int], keys@[r@[q] as int]) || (keys@[r@[p] as int] == keys@[r@[q] as int] && r@[p] < r@[q]),
        decreases n - i,
    {
        let ki = keys[i];
        let mut j: usize = 0;
        while j < r.len() && !precedes(ki, keys[r[j]])
            invariant
                j <= r@.len(),
                n == keys@.len(),
                i < n,
                ki == keys@[i as int],
                forall|p: int| 0 <= p < r@.len() ==> (#[trigger] r@[p]) < i,
                forall|p: int| 0 <= p < j ==> !key_before(ki, keys@[(#[trigger] r@[p]) as int]),
            decreases r@.len() - j,
        {
            j = j + 1;
        }
        let ghost prev = r@;
        assert forall|p: int| j <= p < prev.len() implies key_before(ki, keys@[(#[trigger] prev[p]) as int]) by {
            assert(key_before(ki, keys@[prev[j as int] as int]));
            if p > j {
                let a = keys@[prev[j as int] as int];
                let b = keys@[prev[p] as int];
                assert(key_before(a, b) || a == b);
            }
        }
        r.insert(j, i);
        assert forall|p: int, q: int| 0 <= p < q < r@.len() implies
            key_before(keys@[r@[p] as int], keys@[r@[q] as int]) || (keys@[r@[p] as int] == keys@[r@[q] as int] && r@[p] < r@[q]) by {
            if q < j {
                assert(r@[p] == prev[p] && r@[q] == prev[q]);
            } else if q == j {
                assert(r@[p] == prev[p]);
                assert(!key_before(ki, keys@[prev[p] as int]));
            } else if p < j {
                assert(r@[q] == prev[q - 1] && r@[p] == prev[p]);
            } else if p == j {
                assert(r@[q] == prev[q - 1]);
            } else {
                assert(r@[p] == prev[p - 1] && r@[q] == prev[q - 1]);
            }
        }
        assert forall|p: int, q: int| 0 <= p < q < r@.len() implies r@[p] != r@[q] by {
            if q < j {
                assert(r@[p] == prev[p] && r@[q] == prev[q]);
            } else if q == j {
                assert(r@[p] == prev[p]);
            } else if p < j {
                assert(r@[q] == prev[q - 1] && r@[p] == prev[p]);
            } else if p == j {
                assert(r@[q] == prev[q - 1]);
            } else {
                assert(r@[p] == prev[p - 1] && r@[q] == prev[q - 1]);
            }
        }
        assert forall|p: int| 0 <= p < r@.len() implies (#[trigger] r@[p]) < i + 1 by {
            if p < j {
                assert(r@[p] == prev[p]);
            } else if p > j {
                assert(r@[p] == prev[p - 1]);
            }
        }
        i = i + 1;
    }
    r
}

/// The order in which to list the machine's addresses: global unicast
/// first, longest valid lifetime first among them, then those in the
/// `Preferred` state; ties keep their order.
pub fn rank_addresses(list: &Vec<V6Info>) -> (r: Vec<usize>)
    ensures
        is_ranking(list@.map_values(|a: V6Info| key_of(a)), r@),
{
    let mut keys: Vec<AddrKey> = Vec::new();
    let mut i: usize = 0;
    while i < list.len()
        invariant
            i <= list@.len(),
            keys@ == list@.subrange(0, i as int).map_values(|a: V6Info| key_of(a)),
        decreases list@.len() - i,
    {
        let a = &list[i];
        let key = AddrKey { gua: a.gua, preferred: is_preferred_state(a.state.as_str()), valid: a.valid };
        keys.push(key);
        i = i + 1;
        assert(keys@ =~= list@.subrange(0, i as int).map_values(|a: V6Info| key_of(a)));
    }
    assert(list@.subrange(0, list@.len() as int) =~= list@);
    rank_keys(&keys)
}

} // verus!
