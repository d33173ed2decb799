//! The launcher's own logic: its settings, the dynamic DNS update (URL,
//! report), the log it shows and writes, and the room events it forwards.

use vstd::prelude::*;
use std::collections::VecDeque;
use vstd::string::*;
use crate::server::{RoomView, wf, log_all, lemma_log_all, EVENT_LINES};
use crate::net::{ascii_lower, trim, trimmed, V6Info, best_address, share_target, share_text, firewall_rule_name, firewall_rule_text};
use crate::text::{decimal, digit_char, push_char, push_decimal, push_str, to_string, text_eq};

verus! {

// ------------------------------------------------------------------ settings

/// The launcher's settings.
#[derive(Clone, Debug)]
pub struct LauncherConfig {
    /// Port the duel server listens on.
    pub port: u16,
    /// Domain registered at dynv6.
    pub domain: String,
    /// dynv6 token.
    pub dns_token: String,
    /// Check the public address every few minutes and push changes.
    pub ddns_enabled: bool,
    /// Add the firewall rule when the server starts.
    pub auto_firewall: bool,
    /// Last address pushed to DNS.
    pub last_pushed: String,
}

impl LauncherConfig {
    /// The settings of a fresh installation.
    pub fn initial() -> (r: LauncherConfig)
        ensures
            r.port == 12346,
            r.domain@ == Seq::<char>::empty(),
            r.dns_token@ == Seq::<char>::empty(),
            r.ddns_enabled,
            r.auto_firewall,
            r.last_pushed@ == Seq::<char>::empty(),
    {
        LauncherConfig {
            port: 12346,
            domain: String::new(),
            dns_token: String::new(),
            ddns_enabled: true,
            auto_firewall: true,
            last_pushed: String::new(),
        }
    }
}

impl Default for LauncherConfig {
    fn default() -> (r: LauncherConfig)
        ensures
            r.port == 12346,
            r.domain@ == Seq::<char>::empty(),
            r.dns_token@ == Seq::<char>::empty(),
            r.ddns_enabled,
            r.auto_firewall,
            r.last_pushed@ == Seq::<char>::empty(),
    {
        LauncherConfig::initial()
    }
}

/// The settings file without a leading UTF-8 byte order mark.
pub open spec fn without_bom(b: Seq<u8>) -> Seq<u8> {
    if b.len() >= 3 && b[0] == 0xEF && b[1] == 0xBB && b[2] == 0xBF {
        b.subrange(3, b.len() as int)
    } else {
        b
    }
}

/// Drops a leading UTF-8 byte order mark, which editors add and which the
/// JSON reader would otherwise reject.
pub fn strip_bom(bytes: &[u8]) -> (r: Vec<u8>)
    ensures
        r@ == without_bom(bytes@),
{
    let n = bytes.len();
    let start: usize = if n >= 3 && bytes[0] == 0xEF && bytes[1] == 0xBB && bytes[2] == 0xBF { 3 } else { 0 };
    let mut out: Vec<u8> = Vec::new();
    let mut i = start;
    while i < n
        invariant
            start <= i <= n,
            n == bytes@.len(),
            out@ == bytes@.subrange(start as int, i as int),
        decreases n - i,
    {
        out.push(bytes[i]);
        i = i + 1;
        assert(out@ =~= bytes@.subrange(start as int, i as int));
    }
    assert(bytes@.subrange(0, n as int) =~= bytes@);
    out
}

/// Whether the periodic check should push `address`: the update is on,
/// a domain is set, and the address differs from the last one pushed.
pub fn should_auto_push(cfg: &LauncherConfig, address: &str) -> (r: bool)
    ensures
        r == (cfg.ddns_enabled && trimmed(cfg.domain@).len() > 0 && address@ != cfg.last_pushed@),
{
    if !cfg.ddns_enabled || trim(cfg.domain.as_str()).as_str().is_empty() {
        return false;
    }
    !text_eq(address, cfg.last_pushed.as_str())
}

// ------------------------------------------------------------------ dynamic DNS

/// Characters a URL carries as they are.
pub open spec fn unreserved(b: u8) -> bool {
    (0x41 <= b <= 0x5A) || (0x61 <= b <= 0x7A) || (0x30 <= b <= 0x39) || b == 0x2D || b == 0x5F || b == 0x2E || b == 0x7E || b == 0x3A
}

pub open spec fn hex_digit(d: nat) -> char {
    if d < 10 { digit_char(d) } else if d == 10 { 'A' } else if d == 11 { 'B' } else if d == 12 { 'C' }
    else if d == 13 { 'D' } else if d == 14 { 'E' } else { 'F' }
}

pub open spec fn url_byte(b: u8) -> Seq<char> {
    if unreserved(b) {
        seq![b as char]
    } else {
        seq!['%', hex_digit(b as nat / 16), hex_digit(b as nat % 16)]
    }
}

/// Percent-encoding of UTF-8 bytes: unreserved characters (letters,
/// digits, `-_.~:`) as they are, every other byte as `%XX`.
pub open spec fn url_encoded(b: Seq<u8>) -> Seq<char>
    decreases b.len(),
{
    if b.len() == 0 {
        seq![]
    } else {
        url_encoded(b.drop_last()) + url_byte(b.last())
    }
}

fn hex_char(d: u8) -> (c: char)
    requires
        d < 16,
    ensures
        c == hex_digit(d as nat),
{
    if d == 0 { '0' } else if d == 1 { '1' } else if d == 2 { '2' } else if d == 3 { '3' }
    else if d == 4 { '4' } else if d == 5 { '5' } else if d == 6 { '6' } else if d == 7 { '7' }
    else if d == 8 { '8' } else if d == 9 { '9' } else if d == 10 { 'A' } else if d == 11 { 'B' }
    else if d == 12 { 'C' } else if d == 13 { 'D' } else if d == 14 { 'E' } else { 'F' }
}

/// Percent-encodes `text` for a URL query.
pub fn urlencode(text: &str) -> (r: String)
    ensures
        r@ == url_encoded(text.spec_bytes()),
{
    let bytes = text.as_bytes();
    let mut out = String::new();
    let mut i: usize = 0;
    while i < bytes.len()
        invariant
            i <= bytes@.len(),
            bytes@ == text.spec_bytes(),
            out@ == url_encoded(bytes@.subrange(0, i as int)),
        decreases bytes@.len() - i,
    {
        let b = bytes[i];
        let ghost before = out@;
        if (0x41 <= b && b <= 0x5A) || (0x61 <= b && b <= 0x7A) || (0x30 <= b && b <= 0x39) || b == 0x2D || b == 0x5F || b == 0x2E || b == 0x7E || b == 0x3A {
            push_char(&mut out, b as char);
        } else {
            push_char(&mut out, '%');
            push_char(&mut out, hex_char(b / 16));
            push_char(&mut out, hex_char(b % 16));
        }
        assert(bytes@.subrange(0, i + 1).drop_last() =~= bytes@.subrange(0, i as int));
        assert(out@ =~= before + url_byte(b));
        i = i + 1;
    }
    assert(bytes@.subrange(0, bytes@.len() as int) =~= bytes@);
    out
}

/// The dynv6 update request for `address`, with the domain and the
/// token trimmed.
pub fn update_url(domain: &str, token: &str, address: &str) -> (r: String)
    ensures
        r@ == "https://dynv6.com/api/update?hostname="@ + url_encoded(trim_bytes(domain@)) + "&token="@ + url_encoded(trim_bytes(token@))
            + "&ipv6="@ + url_encoded(address.spec_bytes()),
{
    let d_text = trim(domain);
    let t_text = trim(token);
    let d = d_text.as_str();
    let t = t_text.as_str();
    let mut out = String::new();
    push_str(&mut out, "https://dynv6.com/api/update?hostname=");
    let ed = urlencode(d);
    push_str(&mut out, ed.as_str());
    push_str(&mut out, "&token=");
    let et = urlencode(t);
    push_str(&mut out, et.as_str());
    push_str(&mut out, "&ipv6=");
    let ea = urlencode(address);
    push_str(&mut out, ea.as_str());
    proof {
        lemma_trim_bytes(d, domain);
        lemma_trim_bytes(t, token);
    }
    assert(out@ =~= "https://dynv6.com/api/update?hostname="@ + url_encoded(trim_bytes(domain@)) + "&token="@ + url_encoded(trim_bytes(token@))
        + "&ipv6="@ + url_encoded(address.spec_bytes()));
    out
}

/// The UTF-8 bytes of the trimmed text.
pub open spec fn trim_bytes(s: Seq<char>) -> Seq<u8> {
    vstd::utf8::encode_utf8(trimmed(s))
}

proof fn lemma_trim_bytes(t: &str, s: &str)
    requires
        t@ == trimmed(s@),
    ensures
        t.spec_bytes() == trim_bytes(s@),
{
}

/// The outcome of one dynamic DNS update.
#[derive(Clone, Debug)]
pub struct Report {
    pub ok: bool,
    pub message: String,
    /// Unix seconds.
    pub at: u64,
    pub address: String,
    pub domain: String,
    /// Started by the user rather than by the periodic check.
    pub manual: bool,
}

/// Whether the domain or the token is missing (empty once trimmed).
pub fn settings_missing(domain: &str, token: &str) -> (r: bool)
    ensures
        r == (trimmed(domain@).len() == 0 || trimmed(token@).len() == 0),
{
    trim(domain).as_str().is_empty() || trim(token).as_str().is_empty()
}

/// The report when no update can be sent for want of a domain or token.
pub fn missing_settings_report(domain: &str, address: &str, at: u64, manual: bool) -> (r: Report)
    ensures
        !r.ok,
        r.message@ == "还没填 dynv6 域名 / token"@,
        r.at == at,
        r.address@ == address@,
        r.domain@ == trimmed(domain@),
        r.manual == manual,
{
    Report {
        ok: false,
        message: to_string("还没填 dynv6 域名 / token"),
        at,
        address: to_string(address),
        domain: trim(domain),
        manual,
    }
}

pub open spec fn invalid_word() -> Seq<u32> {
    seq!['i' as u32, 'n' as u32, 'v' as u32, 'a' as u32, 'l' as u32, 'i' as u32, 'd' as u32]
}

/// Whether "invalid" (in any ASCII case) starts at `i` in `s`.
pub open spec fn invalid_at(s: Seq<char>, i: int) -> bool {
    0 <= i && i + 7 <= s.len() && forall|k: int| 0 <= k < 7 ==> ascii_lower(#[trigger] s[i + k]) == invalid_word()[k]
}

/// Whether `s` holds "invalid" in any ASCII case.
pub open spec fn mentions_invalid(s: Seq<char>) -> bool {
    exists|i: int| #[trigger] invalid_at(s, i)
}

fn lower_code(c: char) -> (r: u32)
    ensures
        r == ascii_lower(c),
{
    if 'A' <= c && c <= 'Z' {
        (c as u32) + 32
    } else {
        c as u32
    }
}

fn mentions_invalid_text(s: &str) -> (r: bool)
    ensures
        r == mentions_invalid(s@),
{
    let word: [u32; 7] = ['i' as u32, 'n' as u32, 'v' as u32, 'a' as u32, 'l' as u32, 'i' as u32, 'd' as u32];
    assert(word@ == invalid_word());
    let n = s.unicode_len();
    if n < 7 {
        return false;
    }
    let mut i: usize = 0;
    while i <= n - 7
        invariant
            n == s@.len(),
            n >= 7,
            i <= n - 6,
            word@ == invalid_word(),
            forall|p: int| 0 <= p < i ==> !#[trigger] invalid_at(s@, p),
        decreases n - i,
    {
        let mut k: usize = 0;
        while k < 7 && lower_code(s.get_char(i + k)) == word[k]
            invariant
                k <= 7,
                i + 7 <= n,
                n == s@.len(),
                word@ == invalid_word(),
                forall|q: int| 0 <= q < k ==> ascii_lower(#[trigger] s@[i + q]) == invalid_word()[q],
            decreases 7 - k,
        {
            k = k + 1;
        }
        if k == 7 {
            assert(invalid_at(s@, i as int));
            return true;
        }
        assert(ascii_lower(s@[i + k]) != invalid_word()[k as int]);
        i = i + 1;
    }
    assert forall|p: int| !#[trigger] invalid_at(s@, p) by {
        if 0 <= p && p + 7 <= n {
            assert(p < i);
        }
    }
    false
}

/// The report of an answered update: it succeeded when the HTTP status
/// is a success and the body, trimmed, does not mention "invalid" (in any
/// ASCII case); the message is the trimmed body, or `HTTP <status>` when
/// the body is empty.
pub fn response_report(success: bool, status: &str, body: &str, at: u64, address: &str, domain: &str, manual: bool) -> (r: Report)
    ensures
        r.ok == (success && !mentions_invalid(trimmed(body@))),
        r.message@ == if trimmed(body@).len() == 0 { "HTTP "@ + status@ } else { trimmed(body@) },
        r.at == at,
        r.address@ == address@,
        r.domain@ == trimmed(domain@),
        r.manual == manual,
{
    let b_text = trim(body);
    let b = b_text.as_str();
    let ok = success && !mentions_invalid_text(b);
    let message = if b.is_empty() {
        let mut m = String::new();
        push_str(&mut m, "HTTP ");
        push_str(&mut m, status);
        assert(m@ =~= "HTTP "@ + status@);
        m
    } else {
        to_string(b)
    };
    Report { ok, message, at, address: to_string(address), domain: trim(domain), manual }
}

/// The report of an update that got no answer.
pub fn failure_report(err: &str, at: u64, address: &str, domain: &str, manual: bool) -> (r: Report)
    ensures
        !r.ok,
        r.message@ == "推送失败："@ + err@,
        r.at == at,
        r.address@ == address@,
        r.domain@ == trimmed(domain@),
        r.manual == manual,
{
    let mut m = String::new();
    push_str(&mut m, "推送失败：");
    push_str(&mut m, err);
    assert(m@ =~= "推送失败："@ + err@);
    Report { ok: false, message: m, at, address: to_string(address), domain: trim(domain), manual }
}

/// The report of a manual refresh that found no public address.
pub fn no_address_report(domain: &str) -> (r: Report)
    ensures
        !r.ok,
        r.message@ == "没找到公网 IPv6 地址，先解决这个再谈推 DNS"@,
        r.at == 0,
        r.address@ == Seq::<char>::empty(),
        r.domain@ == domain@,
        r.manual,
{
    Report {
        ok: false,
        message: to_string("没找到公网 IPv6 地址，先解决这个再谈推 DNS"),
        at: 0,
        address: String::new(),
        domain: to_string(domain),
        manual: true,
    }
}

// ------------------------------------------------------------------ log

/// Number of log lines kept in memory.
pub const LOG_LINES: usize = 500;

/// One line of the launcher's log.
#[derive(Clone, Debug)]
pub struct LogLine {
    /// Position in the log since the launcher started (wrapping).
    pub seq: u64,
    /// Unix seconds.
    pub at: u64,
    pub level: String,
    pub text: String,
}

pub ghost struct LineView {
    pub seq: u64,
    pub at: u64,
    pub level: Seq<char>,
    pub text: Seq<char>,
}

pub open spec fn line_view(l: LogLine) -> LineView {
    LineView { seq: l.seq, at: l.at, level: l.level@, text: l.text@ }
}

/// The launcher's log: the most recent lines and the number of the next.
pub struct Log {
    lines: VecDeque<LogLine>,
    next: u64,
}

pub ghost struct LogView {
    pub lines: Seq<LineView>,
    pub next: u64,
}

impl View for Log {
    type V = LogView;

    closed spec fn view(&self) -> LogView {
        LogView { lines: self.lines@.map_values(|l: LogLine| line_view(l)), next: self.next }
    }
}

/// The log after recording a line: the line gets the next number, and the
/// oldest lines beyond [`LOG_LINES`] are forgotten.
pub open spec fn log_push(v: LogView, level: Seq<char>, text: Seq<char>, at: u64) -> LogView {
    let line = LineView { seq: v.next, at, level, text };
    let all = v.lines.push(line);
    LogView {
        lines: if all.len() > LOG_LINES { all.subrange(all.len() - LOG_LINES, all.len() as int) } else { all },
        next: (if v.next == u64::MAX { 0 } else { v.next + 1 }) as u64,
    }
}

fn copy_line(l: &LogLine) -> (r: LogLine)
    ensures
        line_view(r) == line_view(*l),
{
    LogLine { seq: l.seq, at: l.at, level: l.level.clone(), text: l.text.clone() }
}

impl Log {
    /// The log never holds more than [`LOG_LINES`] lines.
    #[verifier::type_invariant]
    spec fn inv(&self) -> bool {
        self.lines@.len() <= LOG_LINES
    }

    /// An empty log.
    pub fn new() -> (r: Log)
        ensures
            r@.lines.len() == 0,
            r@.next == 0,
    {
        let r = Log { lines: VecDeque::new(), next: 0 };
        assert(r@.lines =~= Seq::<LineView>::empty());
        r
    }

    /// Records a line; the returned copy is for the log file and the
    /// window.
    pub fn push(&mut self, level: &str, text: String, at: u64) -> (r: LogLine)
        ensures
            final(self)@ == log_push(old(self)@, level@, text@, at),
            final(self)@.lines.len() <= LOG_LINES,
            line_view(r) == (LineView { seq: old(self)@.next, at, level: level@, text: text@ }),
    {
        proof {
            use_type_invariant(&*self);
        }
        let ghost v = self@;
        let line = LogLine { seq: self.next, at, level: to_string(level), text };
        let copy = copy_line(&line);
        let mut lines: VecDeque<LogLine> = VecDeque::new();
        std::mem::swap(&mut lines, &mut self.lines);
        lines.push_back(line);
        if lines.len() > LOG_LINES {
            lines.pop_front();
        }
        self.lines = lines;
        self.next = self.next.wrapping_add(1);
        assert(self@.lines =~= log_push(v, level@, text@, at).lines);
        assert(self@ =~= log_push(v, level@, text@, at));
        copy
    }

    /// The lines kept, oldest first.
    pub fn snapshot(&self) -> (r: Vec<LogLine>)
        ensures
            r@.map_values(|l: LogLine| line_view(l)) == self@.lines,
    {
        let mut r: Vec<LogLine> = Vec::new();
        let mut i: usize = 0;
        while i < self.lines.len()
            invariant
                i <= self.lines@.len(),
                r@.len() == i,
                forall|k: int| 0 <= k < i ==> line_view(#[trigger] r@[k]) == line_view(self.lines@[k]),
            decreases self.lines@.len() - i,
        {
            r.push(copy_line(&self.lines[i]));
            i = i + 1;
        }
        assert(r@.map_values(|l: LogLine| line_view(l)) =~= self@.lines);
        r
    }
}

/// The log keeps at most [`LOG_LINES`] lines, the newest last, and numbers
/// the lines consecutively.
pub proof fn lemma_log_numbering(v: LogView, level: Seq<char>, text: Seq<char>, at: u64)
    requires
        v.lines.len() <= LOG_LINES,
        v.next < u64::MAX,
    ensures
        log_push(v, level, text, at).lines.len() <= LOG_LINES,
        log_push(v, level, text, at).lines.last() == (LineView { seq: v.next, at, level, text }),
        log_push(v, level, text, at).next == v.next + 1,
        v.lines.len() < LOG_LINES ==> log_push(v, level, text, at).lines == v.lines.push(LineView { seq: v.next, at, level, text }),
{
}

fn push_two_digits(s: &mut String, n: u64)
    requires
        n < 100,
    ensures
        final(s)@ == old(s)@ + seq![digit_char(n as nat / 10), digit_char(n as nat % 10)],
{
    push_char(s, digit(n / 10));
    push_char(s, digit(n % 10));
    assert(final(s)@ =~= old(s)@ + seq![digit_char(n as nat / 10), digit_char(n as nat % 10)]);
}

fn digit(d: u64) -> (c: char)
    requires
        d < 10,
    ensures
        c == digit_char(d as nat),
{
    if d == 0 { '0' } else if d == 1 { '1' } else if d == 2 { '2' } else if d == 3 { '3' } else if d == 4 { '4' }
    else if d == 5 { '5' } else if d == 6 { '6' } else if d == 7 { '7' } else if d == 8 { '8' } else { '9' }
}

pub open spec fn two_digits(n: nat) -> Seq<char> {
    seq![digit_char(n / 10), digit_char(n % 10)]
}

/// A line of the log file: `[HH:MM:SS] [level] text`, the time being
/// the time of day (UTC) of `at`.
pub open spec fn file_line_text(at: u64, level: Seq<char>, text: Seq<char>) -> Seq<char> {
    let secs = at as nat % 86400;
    "["@ + two_digits(secs / 3600) + ":"@ + two_digits((secs % 3600) / 60) + ":"@ + two_digits(secs % 60) + "] ["@ + level + "] "@ + text
}

/// The log-file form of a line.
pub fn file_line(line: &LogLine) -> (r: String)
    ensures
        r@ == file_line_text(line.at, line.level@, line.text@),
{
    let secs = line.at % 86400;
    let mut s = String::new();
    push_str(&mut s, "[");
    push_two_digits(&mut s, secs / 3600);
    push_str(&mut s, ":");
    push_two_digits(&mut s, (secs % 3600) / 60);
    push_str(&mut s, ":");
    push_two_digits(&mut s, secs % 60);
    push_str(&mut s, "] [");
    push_str(&mut s, line.level.as_str());
    push_str(&mut s, "] ");
    push_str(&mut s, line.text.as_str());
    assert(s@ =~= file_line_text(line.at, line.level@, line.text@));
    s
}

// ------------------------------------------------------------------ server status

/// Where, in a room's buffer of the `len` most recent events, the events
/// recorded after the first `mark` begin, when the room has recorded
/// `total` events in all: the last `total - mark` of the buffer, the whole
/// buffer when more than it holds are new, and the whole buffer too when
/// the count is below the mark (the room was made anew).
pub open spec fn unseen_start(mark: u64, total: u64, len: nat) -> nat {
    let fresh: int = if mark <= total { total - mark } else { len as int };
    if fresh >= len { 0 } else { (len - fresh) as nat }
}

/// Which room events have not been forwarded to the log yet, given how
/// many the room had recorded when events were last forwarded (`mark`),
/// how many it has recorded in all (`total`) and how many its buffer holds
/// (`len`): the position in the buffer to forward from (see
/// [`unseen_start`]) and the new mark.
pub fn unseen_events(mark: u64, total: u64, len: usize) -> (r: (usize, u64))
    ensures
        r.0 as nat == unseen_start(mark, total, len as nat),
        r.0 <= len,
        r.1 == total,
{
    let fresh: u64 = if mark <= total { total - mark } else { len as u64 };
    if fresh >= len as u64 {
        (0, total)
    } else {
        (len - fresh as usize, total)
    }
}

/// Each room event is forwarded once: when the room records the events
/// `es` after a forward (at most a buffer's worth of them), the next
/// forward takes exactly `es`, in order.
pub proof fn lemma_events_forwarded_once(v: RoomView, es: Seq<Seq<char>>)
    requires
        wf(v),
        v.logged + es.len() <= u64::MAX,
        es.len() <= EVENT_LINES,
    ensures
        ({
            let w = log_all(v, es);
            let start = unseen_start(v.logged, w.logged, w.events.len());
            w.events.subrange(start as int, w.events.len() as int) == es
        }),
{
    lemma_log_all(v, es);
    let w = log_all(v, es);
    let t = v.events + es;
    let n = w.events.len();
    assert(n >= es.len());
    assert(unseen_start(v.logged, w.logged, n) == n - es.len());
    assert(w.events.subrange(n - es.len(), n as int) =~= es) by {
        assert forall|i: int| 0 <= i < es.len() implies w.events.subrange(n - es.len(), n as int)[i] == es[i] by {
            if t.len() > EVENT_LINES {
                assert(w.events == t.subrange(t.len() - EVENT_LINES, t.len() as int));
            }
            assert(t[v.events.len() + i] == es[i]);
        }
    }
}

/// How the started server can be reached, by which listeners bound.
pub fn listen_label(v6: bool, v4: bool) -> (r: &'static str)
    ensures
        v6 && v4 ==> r@ == "IPv6 + IPv4"@,
        v6 && !v4 ==> r@ == "仅 IPv6（IPv4 客户端连不上）"@,
        !v6 ==> r@ == "仅 IPv4"@,
{
    if v6 && v4 {
        "IPv6 + IPv4"
    } else if v6 {
        "仅 IPv6（IPv4 客户端连不上）"
    } else {
        "仅 IPv4"
    }
}


// ------------------------------------------------------------------ self check

/// What the self check reports to the window.
pub struct SelfCheck {
    /// The machine's IPv6 addresses, best first.
    pub addresses: Vec<V6Info>,
    /// The address to publish, if any.
    pub best: Option<String>,
    /// Whether the firewall rule exists.
    pub firewall: bool,
    pub firewall_name: String,
    /// Whether the duel server runs.
    pub listening: bool,
    pub port: u16,
    pub domain: String,
    /// What players enter to connect.
    pub share: String,
}

/// The first global unicast address of `list`, as text.
pub open spec fn best_of(list: Seq<V6Info>) -> Option<Seq<char>> {
    if exists|i: int| 0 <= i < list.len() && (#[trigger] list[i]).gua {
        let i = choose|i: int| 0 <= i < list.len() && (#[trigger] list[i]).gua && forall|k: int| 0 <= k < i ==> !(#[trigger] list[k]).gua;
        Some(list[i].address@)
    } else {
        None
    }
}

proof fn lemma_best_of_first(list: Seq<V6Info>, i: int)
    requires
        0 <= i < list.len(),
        list[i].gua,
        forall|k: int| 0 <= k < i ==> !(#[trigger] list[k]).gua,
    ensures
        best_of(list) == Some(list[i].address@),
{
    let j = choose|j: int| 0 <= j < list.len() && (#[trigger] list[j]).gua && forall|k: int| 0 <= k < j ==> !(#[trigger] list[k]).gua;
    assert(list[j].gua);
    if j < i {
        assert(!list[j].gua);
    }
    if i < j {
        assert(!list[i].gua);
    }
}

/// The result of the self check, from the machine's addresses (best
/// first), whether the firewall rule exists and whether the server runs.
pub fn self_check_result(addresses: Vec<V6Info>, firewall: bool, listening: bool, port: u16, domain: &str) -> (r: SelfCheck)
    ensures
        r.addresses@ == addresses@,
        opt_string_view(r.best) == best_of(addresses@),
        r.firewall == firewall,
        r.firewall_name@ == firewall_rule_text(port),
        r.listening == listening,
        r.port == port,
        r.domain@ == domain@,
        r.share@ == share_text(domain@, best_of(addresses@), port),
{
    let found = best_address(addresses.as_slice());
    proof {
        if let Some(x) = found {
            let i = choose|i: int| 0 <= i < addresses@.len() && addresses@[i] == *x && x.gua
                && forall|k: int| 0 <= k < i ==> !(#[trigger] addresses@[k]).gua;
            lemma_best_of_first(addresses@, i);
        } else {
            assert(!exists|i: int| 0 <= i < addresses@.len() && (#[trigger] addresses@[i]).gua);
        }
    }
    let best: Option<String> = match found {
        Some(a) => Some(a.address.clone()),
        None => None,
    };
    let share = match &best {
        Some(b) => share_target(domain, Some(b.as_str()), port),
        None => share_target(domain, None, port),
    };
    SelfCheck {
        addresses,
        best,
        firewall,
        firewall_name: firewall_rule_name(port),
        listening,
        port,
        domain: to_string(domain),
        share,
    }
}

pub open spec fn opt_string_view(a: Option<String>) -> Option<Seq<char>> {
    match a {
        Some(s) => Some(s@),
        None => None,
    }
}

/// The log line about the public address found by the self check: its
/// level and text.
pub fn address_line(best: Option<&str>) -> (r: (&'static str, String))
    ensures
        best matches Some(a) ==> r.0@ == "ok"@ && r.1@ == "公网 IPv6："@ + a@,
        best is None ==> r.0@ == "warn"@ && r.1@ == "没找到公网 IPv6 —— 先确认光猫开了 IPv6、且运营商给了 240e:/2408: 开头的地址"@,
{
    match best {
        Some(a) => {
            let mut s = String::new();
            push_str(&mut s, "公网 IPv6：");
            push_str(&mut s, a);
            assert(s@ =~= "公网 IPv6："@ + a@);
            ("ok", s)
        },
        None => ("warn", to_string("没找到公网 IPv6 —— 先确认光猫开了 IPv6、且运营商给了 240e:/2408: 开头的地址")),
    }
}

/// The log line about the firewall rule found by the self check.
pub fn firewall_line(exists: bool, name: &str) -> (r: (&'static str, String))
    ensures
        exists ==> r.0@ == "ok"@ && r.1@ == "防火墙规则已存在："@ + name@,
        !exists ==> r.0@ == "warn"@ && r.1@ == "缺少防火墙入站规则："@ + name@ + "（点「加防火墙规则」需要管理员权限）"@,
{
    let mut s = String::new();
    if exists {
        push_str(&mut s, "防火墙规则已存在：");
        push_str(&mut s, name);
        assert(s@ =~= "防火墙规则已存在："@ + name@);
        ("ok", s)
    } else {
        push_str(&mut s, "缺少防火墙入站规则：");
        push_str(&mut s, name);
        push_str(&mut s, "（点「加防火墙规则」需要管理员权限）");
        assert(s@ =~= "缺少防火墙入站规则："@ + name@ + "（点「加防火墙规则」需要管理员权限）"@);
        ("warn", s)
    }
}

/// The log line after a manual DNS update of `address`.
pub fn ddns_line(address: &str, report: &Report) -> (r: (&'static str, String))
    ensures
        r.0@ == (if report.ok { "ok"@ } else { "warn"@ }),
        r.1@ == "DDNS 推送 "@ + address@ + " → "@ + report.domain@ + "："@ + report.message@,
{
    let mut s = String::new();
    push_str(&mut s, "DDNS 推送 ");
    push_str(&mut s, address);
    push_str(&mut s, " → ");
    push_str(&mut s, report.domain.as_str());
    push_str(&mut s, "：");
    push_str(&mut s, report.message.as_str());
    assert(s@ =~= "DDNS 推送 "@ + address@ + " → "@ + report.domain@ + "："@ + report.message@);
    (if report.ok { "ok" } else { "warn" }, s)
}

// ------------------------------------------------------------------ QR code

/// Whether `qrcode::QrCode::new` can encode `data` (it cannot when the data
/// is too long for the largest code). The same data always gives the same
/// answer.
pub uninterp spec fn qr_encodable(data: Seq<u8>) -> bool;

/// The SVG document of the QR code of `data` at the medium error correction
/// level, rendered at least `min_size` pixels wide, dark modules in `dark`
/// and light ones in `light`. The same arguments always give the same text.
pub uninterp spec fn qr_svg_text(data: Seq<u8>, min_size: u32, dark: Seq<char>, light: Seq<char>) -> Seq<char>;

/// `qrcode::QrCode::new(data)`, then `render::<svg::Color>()` with
/// `min_dimensions(min_size, min_size)`, `dark_color(svg::Color(dark))` and
/// `light_color(svg::Color(light))`, then `build()`: the code as an SVG
/// document; on failure the error's text, one of the five texts of
/// `qrcode::types::QrError`'s `Display`. The size is kept to at most a
/// million pixels, where the renderer's `u32` sizes cannot overflow.
#[verifier::external_body]
fn qr_svg_render(data: &[u8], min_size: u32, dark: &str, light: &str) -> (r: Result<String, String>)
    requires
        min_size <= 1_000_000,
    ensures
        r is Ok == qr_encodable(data@),
        r matches Ok(s) ==> s@ == qr_svg_text(data@, min_size, dark@, light@),
        r matches Err(e) ==> e@ == "data too long"@ || e@ == "invalid version"@ || e@ == "unsupported character set"@
            || e@ == "invalid ECI designator"@ || e@ == "invalid character"@,
{
    match qrcode::QrCode::new(data) {
        Ok(code) => Ok(code
            .render::<qrcode::render::svg::Color>()
            .min_dimensions(min_size, min_size)
            .dark_color(qrcode::render::svg::Color(dark))
            .light_color(qrcode::render::svg::Color(light))
            .build()),
        Err(e) => Err(e.to_string()),
    }
}

/// The QR code of `text` as an SVG document, at least 240 pixels wide,
/// dark `#0b0e14` on white `#ffffff`; or the text of the error when the
/// text cannot be encoded.
pub fn qr_svg(text: &str) -> (r: Result<String, String>)
    ensures
        r is Ok == qr_encodable(text.spec_bytes()),
        r matches Ok(s) ==> s@ == qr_svg_text(text.spec_bytes(), 240, "#0b0e14"@, "#ffffff"@),
        r matches Err(e) ==> e@ == "data too long"@ || e@ == "invalid version"@ || e@ == "unsupported character set"@
            || e@ == "invalid ECI designator"@ || e@ == "invalid character"@,
{
    qr_svg_render(text.as_bytes(), 240, "#0b0e14", "#ffffff")
}


/// The log after pushing `items` (level, text, time) one after the other.
pub open spec fn log_after(v: LogView, items: Seq<(Seq<char>, Seq<char>, u64)>) -> LogView
    decreases items.len(),
{
    if items.len() == 0 {
        v
    } else {
        log_push(log_after(v, items.drop_last()), items.last().0, items.last().1, items.last().2)
    }
}

/// The last [`LOG_LINES`] of the lines `items`, each numbered by its
/// position among all of them.
pub open spec fn numbered(items: Seq<(Seq<char>, Seq<char>, u64)>) -> Seq<LineView> {
    let n = items.len();
    let m = if n < LOG_LINES { n } else { LOG_LINES as nat };
    Seq::new(m, |k: int| LineView {
        seq: (n - m + k) as u64,
        at: items[n - m + k].2,
        level: items[n - m + k].0,
        text: items[n - m + k].1,
    })
}

/// From an empty log, pushing lines one after the other keeps the last
/// [`LOG_LINES`] of them in push order, the line of the `i`-th push numbered
/// `i`, and the next number is the count of pushes.
pub proof fn lemma_log_after_pushes(items: Seq<(Seq<char>, Seq<char>, u64)>)
    requires
        items.len() < u64::MAX,
    ensures
        log_after(LogView { lines: Seq::empty(), next: 0 }, items) == (LogView { lines: numbered(items), next: items.len() as u64 }),
    decreases items.len(),
{
    let v0 = LogView { lines: Seq::<LineView>::empty(), next: 0 };
    if items.len() == 0 {
        assert(numbered(items) =~= Seq::<LineView>::empty());
    } else {
        let n = items.len();
        let pre = items.drop_last();
        lemma_log_after_pushes(pre);
        let prev = numbered(pre);
        let x = items.last();
        let line = LineView { seq: (n - 1) as u64, at: x.2, level: x.0, text: x.1 };
        let all = prev.push(line);
        let got = log_push(log_after(v0, pre), x.0, x.1, x.2);
        assert(got.lines =~= numbered(items)) by {
            if n - 1 < LOG_LINES {
                assert(got.lines == all);
                assert forall|k: int| 0 <= k < n implies got.lines[k] == numbered(items)[k] by {
                    if k < n - 1 {
                        assert(pre[k] == items[k]);
                    }
                }
            } else {
                assert(got.lines == all.subrange(1, all.len() as int));
                assert forall|k: int| 0 <= k < LOG_LINES implies got.lines[k] == numbered(items)[k] by {
                    if k < LOG_LINES - 1 {
                        assert(got.lines[k] == prev[k + 1]);
                        assert(pre[n - 1 - LOG_LINES + k + 1] == items[n - LOG_LINES + k]);
                    }
                }
            }
        }
    }
}

} // verus!
