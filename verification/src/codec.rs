use vstd::prelude::*;

use crate::message::ChatMessage;
use crate::message::ChatMessageView;
use crate::message::MessageType;

verus! {

// The wire form of an envelope is one line of structured text:
//
//   {"id":"<id>","username":"<name>","content":"<text>","timestamp":<n>,"message_type":"<kind>"}
//
// The three text fields are quoted with the characters `"`, `\`, newline,
// carriage return and tab escaped, so a record never holds an embedded
// line terminator; the timestamp is the plain decimal digits; the kind is
// one of four fixed names.

/// Raised when a line is not a well-formed envelope record. Callers treat
/// it as "not a protocol message" and skip the line.
#[derive(Clone, Copy, Debug, PartialEq, Eq, Structural)]
pub enum DecodeError {
    Malformed,
}

pub open spec fn quote() -> Seq<char> {
    seq!['"']
}

pub open spec fn lit_id() -> Seq<char> {
    seq!['{', '"', 'i', 'd', '"', ':', '"']
}

pub open spec fn lit_username() -> Seq<char> {
    seq![',', '"', 'u', 's', 'e', 'r', 'n', 'a', 'm', 'e', '"', ':', '"']
}

pub open spec fn lit_content() -> Seq<char> {
    seq![',', '"', 'c', 'o', 'n', 't', 'e', 'n', 't', '"', ':', '"']
}

pub open spec fn lit_timestamp() -> Seq<char> {
    seq![',', '"', 't', 'i', 'm', 'e', 's', 't', 'a', 'm', 'p', '"', ':']
}

pub open spec fn lit_kind() -> Seq<char> {
    seq![',', '"', 'm', 'e', 's', 's', 'a', 'g', 'e', '_', 't', 'y', 'p', 'e', '"', ':', '"']
}

pub open spec fn lit_end() -> Seq<char> {
    seq!['"', '}']
}

pub open spec fn kind_name(k: MessageType) -> Seq<char> {
    match k {
        MessageType::Text => seq!['T', 'e', 'x', 't'],
        MessageType::Join => seq!['J', 'o', 'i', 'n'],
        MessageType::Leave => seq!['L', 'e', 'a', 'v', 'e'],
        MessageType::System => seq!['S', 'y', 's', 't', 'e', 'm'],
    }
}

/// How one character appears inside a quoted field.
pub open spec fn escaped_char(c: char) -> Seq<char> {
    if c == '"' {
        seq!['\\', '"']
    } else if c == '\\' {
        seq!['\\', '\\']
    } else if c == '\n' {
        seq!['\\', 'n']
    } else if c == '\r' {
        seq!['\\', 'r']
    } else if c == '\t' {
        seq!['\\', 't']
    } else {
        seq![c]
    }
}

/// How a whole text field appears inside a quoted field.
pub open spec fn escaped(s: Seq<char>) -> Seq<char>
    decreases s.len(),
{
    if s.len() == 0 {
        Seq::empty()
    } else {
        escaped_char(s[0]) + escaped(s.skip(1))
    }
}

/// The character an escape pair `\x` stands for, if `x` is a valid
/// escape code.
pub open spec fn unescape_char(c: char) -> Option<char> {
    if c == '"' {
        Some('"')
    } else if c == '\\' {
        Some('\\')
    } else if c == 'n' {
        Some('\n')
    } else if c == 'r' {
        Some('\r')
    } else if c == 't' {
        Some('\t')
    } else {
        None
    }
}

pub open spec fn is_digit(c: char) -> bool {
    '0' as u32 <= c as u32 && c as u32 <= '9' as u32
}

pub open spec fn digit_val(c: char) -> int {
    c as u32 - '0' as u32
}

pub open spec fn char_of_digit(d: int) -> char {
    if d == 0 {
        '0'
    } else if d == 1 {
        '1'
    } else if d == 2 {
        '2'
    } else if d == 3 {
        '3'
    } else if d == 4 {
        '4'
    } else if d == 5 {
        '5'
    } else if d == 6 {
        '6'
    } else if d == 7 {
        '7'
    } else if d == 8 {
        '8'
    } else {
        '9'
    }
}

/// The decimal digits of `n`, most significant first, no leading zeros
/// (a single `0` for zero itself).
pub open spec fn dec_rep(n: nat) -> Seq<char>
    decreases n,
{
    if n < 10 {
        seq![char_of_digit(n as int)]
    } else {
        dec_rep(n / 10).push(char_of_digit((n % 10) as int))
    }
}

pub proof fn lemma_escaped_snoc(s: Seq<char>, c: char)
    ensures
        escaped(s.push(c)) == escaped(s) + escaped_char(c),
    decreases s.len(),
{
    if s.len() == 0 {
        assert(s.push(c)[0] == c);
        assert(s.push(c).skip(1) =~= Seq::<char>::empty());
        assert(escaped(s.push(c)) == escaped_char(c) + escaped(Seq::<char>::empty()));
        assert(escaped_char(c) + Seq::<char>::empty() =~= escaped_char(c));
        assert(escaped(s) + escaped_char(c) =~= escaped_char(c));
    } else {
        assert(s.push(c)[0] == s[0]);
        assert(s.push(c).skip(1) =~= s.skip(1).push(c));
        lemma_escaped_snoc(s.skip(1), c);
        assert(escaped_char(s[0]) + (escaped(s.skip(1)) + escaped_char(c)) =~= (escaped_char(
            s[0],
        ) + escaped(s.skip(1))) + escaped_char(c));
    }
}

/// The full wire form of an envelope.
pub open spec fn spec_encode(m: ChatMessageView) -> Seq<char> {
    lit_id() + escaped(m.id) + quote() + lit_username() + escaped(m.username) + quote()
        + lit_content() + escaped(m.content) + quote() + lit_timestamp() + dec_rep(
        m.timestamp as nat,
    ) + lit_kind() + kind_name(m.message_type) + lit_end()
}

/// Drops `p` off the front of `s`, or fails when `s` does not begin
/// with `p`.
pub open spec fn strip(s: Seq<char>, p: Seq<char>) -> Option<Seq<char>> {
    if p.len() <= s.len() && s.subrange(0, p.len() as int) == p {
        Some(s.skip(p.len() as int))
    } else {
        None
    }
}

/// Reads a quoted field up to and including its closing quote,
/// undoing the escapes; `acc` carries the characters read so far.
pub open spec fn scan_quoted(s: Seq<char>, acc: Seq<char>) -> Option<(Seq<char>, Seq<char>)>
    decreases s.len(),
{
    if s.len() == 0 {
        None
    } else if s[0] == '"' {
        Some((acc, s.skip(1)))
    } else if s[0] == '\\' {
        if s.len() < 2 {
            None
        } else {
            match unescape_char(s[1]) {
                None => None,
                Some(u) => scan_quoted(s.skip(2), acc.push(u)),
            }
        }
    } else {
        scan_quoted(s.skip(1), acc.push(s[0]))
    }
}

/// Reads the longest digit prefix, folding it onto `acc`.
pub open spec fn scan_digits(s: Seq<char>, acc: nat) -> (nat, Seq<char>)
    decreases s.len(),
{
    if s.len() == 0 || !is_digit(s[0]) {
        (acc, s)
    } else {
        scan_digits(s.skip(1), (acc * 10 + digit_val(s[0])) as nat)
    }
}

/// Reads one of the four kind names off the front of `s`.
pub open spec fn scan_kind(s: Seq<char>) -> Option<(MessageType, Seq<char>)> {
    match strip(s, kind_name(MessageType::Text)) {
        Some(r) => Some((MessageType::Text, r)),
        None => match strip(s, kind_name(MessageType::Join)) {
            Some(r) => Some((MessageType::Join, r)),
            None => match strip(s, kind_name(MessageType::Leave)) {
                Some(r) => Some((MessageType::Leave, r)),
                None => match strip(s, kind_name(MessageType::System)) {
                    Some(r) => Some((MessageType::System, r)),
                    None => None,
                },
            },
        },
    }
}

/// What a line of text means as an envelope: the parse succeeds exactly
/// on well-formed records whose timestamp fits a machine word.
pub open spec fn spec_decode(s: Seq<char>) -> Option<ChatMessageView> {
    match strip(s, lit_id()) {
        None => None,
        Some(s1) => match scan_quoted(s1, Seq::empty()) {
            None => None,
            Some((id, s2)) => match strip(s2, lit_username()) {
                None => None,
                Some(s3) => match scan_quoted(s3, Seq::empty()) {
                    None => None,
                    Some((username, s4)) => match strip(s4, lit_content()) {
                        None => None,
                        Some(s5) => match scan_quoted(s5, Seq::empty()) {
                            None => None,
                            Some((content, s6)) => match strip(s6, lit_timestamp()) {
                                None => None,
                                Some(s7) => if s7.len() == 0 || !is_digit(s7[0]) {
                                    None
                                } else {
                                    let (v, s8) = scan_digits(s7, 0);
                                    if v >= 0x1_0000_0000_0000_0000 {
                                        None
                                    } else {
                                        match strip(s8, lit_kind()) {
                                            None => None,
                                            Some(s9) => match scan_kind(s9) {
                                                None => None,
                                                Some((k, s10)) => match strip(s10, lit_end()) {
                                                    None => None,
                                                    Some(s11) => if s11.len() == 0 {
                                                        Some(
                                                            ChatMessageView {
                                                                id: id,
                                                                username: username,
                                                                content: content,
                                                                timestamp: v as u64,
                                                                message_type: k,
                                                            },
                                                        )
                                                    } else {
                                                        None
                                                    },
                                                },
                                            },
                                        }
                                    }
                                },
                            },
                        },
                    },
                },
            },
        },
    }
}

/// Relies on String::push: appends exactly the one given character.
#[verifier::external_body]
fn push_char(s: &mut String, c: char)
    ensures
        final(s)@ == old(s)@.push(c),
{
    s.push(c);
}

fn push_escaped_char(out: &mut String, c: char)
    ensures
        final(out)@ == old(out)@ + escaped_char(c),
{
    if c == '"' {
        push_char(out, '\\');
        push_char(out, '"');
    } else if c == '\\' {
        push_char(out, '\\');
        push_char(out, '\\');
    } else if c == '\n' {
        push_char(out, '\\');
        push_char(out, 'n');
    } else if c == '\r' {
        push_char(out, '\\');
        push_char(out, 'r');
    } else if c == '\t' {
        push_char(out, '\\');
        push_char(out, 't');
    } else {
        push_char(out, c);
    }
    proof {
        assert(final(out)@ =~= old(out)@ + escaped_char(c));
    }
}

fn push_escaped(out: &mut String, s: &str)
    ensures
        final(out)@ == old(out)@ + escaped(s@),
{
    let n = s.unicode_len();
    let mut i: usize = 0;
    while i < n
        invariant
            i <= n,
            n == s@.len(),
            out@ == old(out)@ + escaped(s@.take(i as int)),
        decreases n - i,
    {
        let c = s.get_char(i);
        proof {
            lemma_escaped_snoc(s@.take(i as int), c);
            assert(s@.take(i as int).push(c) =~= s@.take(i as int + 1));
        }
        push_escaped_char(out, c);
        proof {
            assert((old(out)@ + escaped(s@.take(i as int))) + escaped_char(c) =~= old(out)@
                + escaped(s@.take(i as int + 1)));
        }
        i = i + 1;
    }
    proof {
        assert(s@.take(n as int) =~= s@);
    }
}

fn digit_char(d: u64) -> (c: char)
    requires
        d < 10,
    ensures
        c == char_of_digit(d as int),
{
    if d == 0 {
        '0'
    } else if d == 1 {
        '1'
    } else if d == 2 {
        '2'
    } else if d == 3 {
        '3'
    } else if d == 4 {
        '4'
    } else if d == 5 {
        '5'
    } else if d == 6 {
        '6'
    } else if d == 7 {
        '7'
    } else if d == 8 {
        '8'
    } else {
        '9'
    }
}

fn push_u64(out: &mut String, n: u64)
    ensures
        final(out)@ == old(out)@ + dec_rep(n as nat),
    decreases n,
{
    if n < 10 {
        push_char(out, digit_char(n));
        proof {
            assert(old(out)@.push(char_of_digit(n as int)) =~= old(out)@ + dec_rep(n as nat));
        }
    } else {
        push_u64(out, n / 10);
        push_char(out, digit_char(n % 10));
        proof {
            assert((old(out)@ + dec_rep((n / 10) as nat)).push(char_of_digit((n % 10) as int))
                =~= old(out)@ + dec_rep(n as nat));
        }
    }
}

impl ChatMessage {
    /// Encodes the envelope as one self-delimited text record; the result
    /// is exactly the wire form that `spec_encode` states, and never holds
    /// an embedded line terminator.
    pub fn to_json(&self) -> (r: String)
        ensures
            r@ == spec_encode(self@),
            line_safe(r@),
    {
        proof {
            lemma_encode_line_safe(self@);
        }
        let mut out = String::new();
        out.append("{\"id\":\"");
        proof {
            reveal_strlit("{\"id\":\"");
            assert("{\"id\":\""@ =~= lit_id());
        }
        push_escaped(&mut out, self.id.as_str());
        out.append("\",\"username\":\"");
        proof {
            reveal_strlit("\",\"username\":\"");
            assert("\",\"username\":\""@ =~= quote() + lit_username());
        }
        push_escaped(&mut out, self.username.as_str());
        out.append("\",\"content\":\"");
        proof {
            reveal_strlit("\",\"content\":\"");
            assert("\",\"content\":\""@ =~= quote() + lit_content());
        }
        push_escaped(&mut out, self.content.as_str());
        out.append("\",\"timestamp\":");
        proof {
            reveal_strlit("\",\"timestamp\":");
            assert("\",\"timestamp\":"@ =~= quote() + lit_timestamp());
        }
        push_u64(&mut out, self.timestamp);
        out.append(",\"message_type\":\"");
        proof {
            reveal_strlit(",\"message_type\":\"");
            assert(",\"message_type\":\""@ =~= lit_kind());
        }
        match self.message_type {
            MessageType::Text => {
                out.append("Text");
                proof {
                    reveal_strlit("Text");
                    assert("Text"@ =~= kind_name(self.message_type));
                }
            },
            MessageType::Join => {
                out.append("Join");
                proof {
                    reveal_strlit("Join");
                    assert("Join"@ =~= kind_name(self.message_type));
                }
            },
            MessageType::Leave => {
                out.append("Leave");
                proof {
                    reveal_strlit("Leave");
                    assert("Leave"@ =~= kind_name(self.message_type));
                }
            },
            MessageType::System => {
                out.append("System");
                proof {
                    reveal_strlit("System");
                    assert("System"@ =~= kind_name(self.message_type));
                }
            },
        }
        out.append("\"}");
        proof {
            reveal_strlit("\"}");
            assert("\"}"@ =~= lit_end());
            assert(out@ =~= spec_encode(self@));
        }
        out
    }
}

proof fn lemma_strip_concat(p: Seq<char>, rest: Seq<char>)
    ensures
        strip(p + rest, p) == Some(rest),
{
    assert((p + rest).subrange(0, p.len() as int) =~= p);
    assert((p + rest).skip(p.len() as int) =~= rest);
}

proof fn lemma_strip_mismatch(s: Seq<char>, p: Seq<char>)
    requires
        s.len() > 0,
        p.len() > 0,
        s[0] != p[0],
    ensures
        strip(s, p) is None,
{
    if p.len() <= s.len() {
        if s.subrange(0, p.len() as int) == p {
            assert(s.subrange(0, p.len() as int)[0] == s[0]);
            assert(false);
        }
    }
}

proof fn lemma_scan_quoted_escaped(t: Seq<char>, rest: Seq<char>, acc: Seq<char>)
    ensures
        scan_quoted(escaped(t) + quote() + rest, acc) == Some((acc + t, rest)),
    decreases t.len(),
{
    let s = escaped(t) + quote() + rest;
    if t.len() == 0 {
        assert(escaped(t) =~= Seq::<char>::empty());
        assert(s =~= quote() + rest);
        assert(s[0] == '"');
        assert(s.skip(1) =~= rest);
        assert(acc + t =~= acc);
    } else {
        let c = t[0];
        let tail = escaped(t.skip(1)) + quote() + rest;
        lemma_scan_quoted_escaped(t.skip(1), rest, acc.push(c));
        assert(acc.push(c) + t.skip(1) =~= acc + t);
        if c == '"' || c == '\\' || c == '\n' || c == '\r' || c == '\t' {
            let e: char = if c == '"' {
                '"'
            } else if c == '\\' {
                '\\'
            } else if c == '\n' {
                'n'
            } else if c == '\r' {
                'r'
            } else {
                't'
            };
            assert(escaped_char(c) =~= seq!['\\', e]);
            assert(s =~= seq!['\\', e] + tail);
            assert(s[0] == '\\');
            assert(s.len() >= 2);
            assert(s[1] == e);
            assert(unescape_char(e) == Some(c));
            assert(s.skip(2) =~= tail);
        } else {
            assert(escaped_char(c) =~= seq![c]);
            assert(s =~= seq![c] + tail);
            assert(s[0] == c);
            assert(s.skip(1) =~= tail);
        }
    }
}

proof fn lemma_dec_rep_digits(n: nat)
    ensures
        dec_rep(n).len() >= 1,
        forall|i: int| 0 <= i < dec_rep(n).len() ==> is_digit(#[trigger] dec_rep(n)[i]),
    decreases n,
{
    if n < 10 {
        assert(is_digit(char_of_digit(n as int)));
    } else {
        lemma_dec_rep_digits(n / 10);
        assert(is_digit(char_of_digit((n % 10) as int)));
        assert forall|i: int| 0 <= i < dec_rep(n).len() implies is_digit(
            #[trigger] dec_rep(n)[i],
        ) by {
            if i < dec_rep(n / 10).len() {
                assert(dec_rep(n)[i] == dec_rep(n / 10)[i]);
            } else {
                assert(dec_rep(n)[i] == char_of_digit((n % 10) as int));
            }
        }
    }
}

pub open spec fn pow10(k: nat) -> nat
    decreases k,
{
    if k == 0 {
        1
    } else {
        10 * pow10((k - 1) as nat)
    }
}

proof fn lemma_scan_dec_rep(n: nat, tail: Seq<char>, acc: nat)
    ensures
        scan_digits(dec_rep(n) + tail, acc) == scan_digits(
            tail,
            (acc * pow10(dec_rep(n).len() as nat) + n) as nat,
        ),
    decreases n,
{
    lemma_dec_rep_digits(n);
    if n < 10 {
        let s = dec_rep(n) + tail;
        assert(s[0] == char_of_digit(n as int));
        assert(is_digit(s[0]));
        assert(digit_val(char_of_digit(n as int)) == n);
        assert(s.skip(1) =~= tail);
        assert(dec_rep(n).len() == 1);
        assert(pow10(1) == 10 * pow10(0));
    } else {
        let hd = dec_rep(n / 10);
        let d = char_of_digit((n % 10) as int);
        let k = hd.len() as nat;
        assert(dec_rep(n) == hd.push(d));
        assert(dec_rep(n) + tail =~= hd + (seq![d] + tail));
        lemma_scan_dec_rep(n / 10, seq![d] + tail, acc);
        let acc2: nat = (acc * pow10(k) + n / 10) as nat;
        assert((seq![d] + tail)[0] == d);
        assert(is_digit(d));
        assert(digit_val(d) == n % 10);
        assert((seq![d] + tail).skip(1) =~= tail);
        assert(dec_rep(n).len() == k + 1);
        assert(pow10((k + 1) as nat) == 10 * pow10(k));
        vstd::arithmetic::div_mod::lemma_fundamental_div_mod(n as int, 10);
        assert(acc2 * 10 + n % 10 == acc * pow10((k + 1) as nat) + n) by (nonlinear_arith)
            requires
                acc2 == acc * pow10(k) + n / 10,
                pow10((k + 1) as nat) == 10 * pow10(k),
                n == 10 * (n as int / 10) + (n as int % 10),
        ;
    }
}

/// Round-trip fidelity: decoding an encoded envelope gives back exactly
/// the envelope, whatever its fields and whichever of the four kinds it
/// carries.
#[verifier::rlimit(100)]
pub proof fn lemma_round_trip(m: ChatMessageView)
    ensures
        spec_decode(spec_encode(m)) == Some(m),
{
    let a = escaped(m.id);
    let b = escaped(m.username);
    let cc = escaped(m.content);
    let t = dec_rep(m.timestamp as nat);
    let k = kind_name(m.message_type);
    let s = spec_encode(m);

    let r1 = a + quote() + lit_username() + b + quote() + lit_content() + cc + quote()
        + lit_timestamp() + t + lit_kind() + k + lit_end();
    assert(s =~= lit_id() + r1);
    lemma_strip_concat(lit_id(), r1);

    let r2 = lit_username() + b + quote() + lit_content() + cc + quote() + lit_timestamp() + t
        + lit_kind() + k + lit_end();
    assert(r1 =~= a + quote() + r2);
    lemma_scan_quoted_escaped(m.id, r2, Seq::empty());
    assert(Seq::empty() + m.id =~= m.id);

    let r3 = b + quote() + lit_content() + cc + quote() + lit_timestamp() + t + lit_kind() + k
        + lit_end();
    assert(r2 =~= lit_username() + r3);
    lemma_strip_concat(lit_username(), r3);

    let r4 = lit_content() + cc + quote() + lit_timestamp() + t + lit_kind() + k + lit_end();
    assert(r3 =~= b + quote() + r4);
    lemma_scan_quoted_escaped(m.username, r4, Seq::empty());
    assert(Seq::empty() + m.username =~= m.username);

    let r5 = cc + quote() + lit_timestamp() + t + lit_kind() + k + lit_end();
    assert(r4 =~= lit_content() + r5);
    lemma_strip_concat(lit_content(), r5);

    let r6 = lit_timestamp() + t + lit_kind() + k + lit_end();
    assert(r5 =~= cc + quote() + r6);
    lemma_scan_quoted_escaped(m.content, r6, Seq::empty());
    assert(Seq::empty() + m.content =~= m.content);

    let r7 = t + lit_kind() + k + lit_end();
    assert(r6 =~= lit_timestamp() + r7);
    lemma_strip_concat(lit_timestamp(), r7);

    let r8 = lit_kind() + k + lit_end();
    assert(r7 =~= t + r8);
    lemma_dec_rep_digits(m.timestamp as nat);
    assert(r7[0] == t[0]);
    assert(is_digit(r7[0]));
    lemma_scan_dec_rep(m.timestamp as nat, r8, 0);
    assert((0 * pow10(t.len() as nat) + m.timestamp as nat) == m.timestamp as nat);
    assert(r8[0] == ',');
    assert(!is_digit(','));
    assert(scan_digits(r7, 0) == ((m.timestamp as nat), r8));

    let r9 = k + lit_end();
    assert(r8 =~= lit_kind() + r9);
    lemma_strip_concat(lit_kind(), r9);

    assert(r9[0] == k[0]);
    match m.message_type {
        MessageType::Text => {
        },
        MessageType::Join => {
            lemma_strip_mismatch(r9, kind_name(MessageType::Text));
        },
        MessageType::Leave => {
            lemma_strip_mismatch(r9, kind_name(MessageType::Text));
            lemma_strip_mismatch(r9, kind_name(MessageType::Join));
        },
        MessageType::System => {
            lemma_strip_mismatch(r9, kind_name(MessageType::Text));
            lemma_strip_mismatch(r9, kind_name(MessageType::Join));
            lemma_strip_mismatch(r9, kind_name(MessageType::Leave));
        },
    }
    lemma_strip_concat(k, lit_end());

    lemma_strip_concat(lit_end(), Seq::empty());
    assert(lit_end() =~= lit_end() + Seq::<char>::empty());

    assert(spec_decode(s) == Some(
        ChatMessageView {
            id: m.id,
            username: m.username,
            content: m.content,
            timestamp: m.timestamp,
            message_type: m.message_type,
        },
    ));
}

pub open spec fn line_safe(s: Seq<char>) -> bool {
    forall|i: int| 0 <= i < s.len() ==> s[i] != '\n'
}

proof fn lemma_line_safe_concat(x: Seq<char>, y: Seq<char>)
    requires
        line_safe(x),
        line_safe(y),
    ensures
        line_safe(x + y),
{
    assert forall|i: int| 0 <= i < (x + y).len() implies (x + y)[i] != '\n' by {
        if i < x.len() {
            assert((x + y)[i] == x[i]);
        } else {
            assert((x + y)[i] == y[i - x.len()]);
        }
    }
}

proof fn lemma_escaped_line_safe(s: Seq<char>)
    ensures
        line_safe(escaped(s)),
    decreases s.len(),
{
    if s.len() != 0 {
        lemma_escaped_line_safe(s.skip(1));
        lemma_line_safe_concat(escaped_char(s[0]), escaped(s.skip(1)));
    }
}

/// The wire form is one self-delimited record: no encoded envelope ever
/// holds an embedded line terminator, so newline framing is safe.
pub proof fn lemma_encode_line_safe(m: ChatMessageView)
    ensures
        line_safe(spec_encode(m)),
{
    lemma_escaped_line_safe(m.id);
    lemma_escaped_line_safe(m.username);
    lemma_escaped_line_safe(m.content);
    lemma_dec_rep_digits(m.timestamp as nat);
    assert(line_safe(dec_rep(m.timestamp as nat)));
    assert(line_safe(lit_id()));
    assert(line_safe(quote()));
    assert(line_safe(lit_username()));
    assert(line_safe(lit_content()));
    assert(line_safe(lit_timestamp()));
    assert(line_safe(lit_kind()));
    assert(line_safe(kind_name(m.message_type)));
    assert(line_safe(lit_end()));
    lemma_line_safe_concat(lit_id(), escaped(m.id));
    lemma_line_safe_concat(lit_id() + escaped(m.id), quote());
    lemma_line_safe_concat(lit_id() + escaped(m.id) + quote(), lit_username());
    lemma_line_safe_concat(
        lit_id() + escaped(m.id) + quote() + lit_username(),
        escaped(m.username),
    );
    lemma_line_safe_concat(
        lit_id() + escaped(m.id) + quote() + lit_username() + escaped(m.username),
        quote(),
    );
    lemma_line_safe_concat(
        lit_id() + escaped(m.id) + quote() + lit_username() + escaped(m.username) + quote(),
        lit_content(),
    );
    lemma_line_safe_concat(
        lit_id() + escaped(m.id) + quote() + lit_username() + escaped(m.username) + quote()
            + lit_content(),
        escaped(m.content),
    );
    lemma_line_safe_concat(
        lit_id() + escaped(m.id) + quote() + lit_username() + escaped(m.username) + quote()
            + lit_content() + escaped(m.content),
        quote(),
    );
    lemma_line_safe_concat(
        lit_id() + escaped(m.id) + quote() + lit_username() + escaped(m.username) + quote()
            + lit_content() + escaped(m.content) + quote(),
        lit_timestamp(),
    );
    lemma_line_safe_concat(
        lit_id() + escaped(m.id) + quote() + lit_username() + escaped(m.username) + quote()
            + lit_content() + escaped(m.content) + quote() + lit_timestamp(),
        dec_rep(m.timestamp as nat),
    );
    lemma_line_safe_concat(
        lit_id() + escaped(m.id) + quote() + lit_username() + escaped(m.username) + quote()
            + lit_content() + escaped(m.content) + quote() + lit_timestamp() + dec_rep(
            m.timestamp as nat,
        ),
        lit_kind(),
    );
    lemma_line_safe_concat(
        lit_id() + escaped(m.id) + quote() + lit_username() + escaped(m.username) + quote()
            + lit_content() + escaped(m.content) + quote() + lit_timestamp() + dec_rep(
            m.timestamp as nat,
        ) + lit_kind(),
        kind_name(m.message_type),
    );
    lemma_line_safe_concat(
        lit_id() + escaped(m.id) + quote() + lit_username() + escaped(m.username) + quote()
            + lit_content() + escaped(m.content) + quote() + lit_timestamp() + dec_rep(
            m.timestamp as nat,
        ) + lit_kind() + kind_name(m.message_type),
        lit_end(),
    );
}

fn strip_at(s: &str, i: usize, lit: &str) -> (r: Option<usize>)
    requires
        i <= s@.len(),
    ensures
        match r {
            Some(j) => i <= j <= s@.len() && strip(s@.skip(i as int), lit@) == Some(
                s@.skip(j as int),
            ),
            None => strip(s@.skip(i as int), lit@) is None,
        },
{
    let n = s.unicode_len();
    let m = lit.unicode_len();
    if m > n - i {
        return None;
    }
    let mut j: usize = 0;
    while j < m
        invariant
            j <= m,
            m == lit@.len(),
            n == s@.len(),
            i + m <= n,
            forall|x: int| 0 <= x < j ==> s@.skip(i as int)[x] == lit@[x],
        decreases m - j,
    {
        let cs = s.get_char(i + j);
        let cl = lit.get_char(j);
        if cs != cl {
            proof {
                assert(s@.skip(i as int)[j as int] == s@[i + j as int]);
                if strip(s@.skip(i as int), lit@) is Some {
                    assert(s@.skip(i as int).subrange(0, m as int) == lit@);
                    assert(s@.skip(i as int).subrange(0, m as int)[j as int] == lit@[j as int]);
                    assert(false);
                }
            }
            return None;
        }
        proof {
            assert(s@.skip(i as int)[j as int] == s@[i + j as int]);
        }
        j = j + 1;
    }
    proof {
        assert(s@.skip(i as int).subrange(0, m as int) =~= lit@);
        assert(s@.skip(i as int).skip(m as int) =~= s@.skip((i + m) as int));
    }
    Some(i + m)
}

fn unescape_char_exec(c: char) -> (r: Option<char>)
    ensures
        r == unescape_char(c),
{
    if c == '"' {
        Some('"')
    } else if c == '\\' {
        Some('\\')
    } else if c == 'n' {
        Some('\n')
    } else if c == 'r' {
        Some('\r')
    } else if c == 't' {
        Some('\t')
    } else {
        None
    }
}

fn scan_string_at(s: &str, start: usize) -> (r: Option<(String, usize)>)
    requires
        start <= s@.len(),
    ensures
        match r {
            Some(p) => start <= p.1 <= s@.len() && scan_quoted(s@.skip(start as int), Seq::empty())
                == Some((p.0@, s@.skip(p.1 as int))),
            None => scan_quoted(s@.skip(start as int), Seq::empty()) is None,
        },
{
    let n = s.unicode_len();
    let mut i: usize = start;
    let mut out = String::new();
    while i < n
        invariant
            start <= i <= n,
            n == s@.len(),
            scan_quoted(s@.skip(start as int), Seq::empty()) == scan_quoted(
                s@.skip(i as int),
                out@,
            ),
        decreases n - i,
    {
        let c = s.get_char(i);
        proof {
            assert(s@.skip(i as int)[0] == s@[i as int]);
        }
        if c == '"' {
            proof {
                assert(s@.skip(i as int).skip(1) =~= s@.skip(i as int + 1));
            }
            return Some((out, i + 1));
        } else if c == '\\' {
            if i + 1 == n {
                return None;
            }
            let c2 = s.get_char(i + 1);
            proof {
                assert(s@.skip(i as int)[1] == s@[i as int + 1]);
            }
            match unescape_char_exec(c2) {
                None => {
                    return None;
                },
                Some(u) => {
                    push_char(&mut out, u);
                    proof {
                        assert(s@.skip(i as int).skip(2) =~= s@.skip(i as int + 2));
                    }
                    i = i + 2;
                },
            }
        } else {
            push_char(&mut out, c);
            proof {
                assert(s@.skip(i as int).skip(1) =~= s@.skip(i as int + 1));
            }
            i = i + 1;
        }
    }
    proof {
        assert(s@.skip(i as int).len() == 0);
    }
    None
}

proof fn lemma_scan_digits_ge(s: Seq<char>, acc: nat)
    ensures
        scan_digits(s, acc).0 >= acc,
    decreases s.len(),
{
    if s.len() > 0 && is_digit(s[0]) {
        lemma_scan_digits_ge(s.skip(1), (acc * 10 + digit_val(s[0])) as nat);
    }
}

fn scan_number_at(s: &str, start: usize) -> (r: Option<(u64, usize)>)
    requires
        start <= s@.len(),
    ensures
        match r {
            Some(p) => start < p.1 <= s@.len() && s@.skip(start as int).len() > 0 && is_digit(
                s@.skip(start as int)[0],
            ) && scan_digits(s@.skip(start as int), 0) == (p.0 as nat, s@.skip(p.1 as int)),
            None => s@.skip(start as int).len() == 0 || !is_digit(s@.skip(start as int)[0])
                || scan_digits(s@.skip(start as int), 0).0 >= 0x1_0000_0000_0000_0000,
        },
{
    let n = s.unicode_len();
    if start == n {
        return None;
    }
    let c0 = s.get_char(start);
    let v0 = c0 as u32;
    proof {
        assert(s@.skip(start as int)[0] == s@[start as int]);
    }
    if v0 < 48 || v0 > 57 {
        return None;
    }
    let mut acc: u64 = (v0 - 48) as u64;
    let mut i: usize = start + 1;
    proof {
        assert(is_digit(s@[start as int]));
        assert(digit_val(s@[start as int]) == acc as int);
        assert(s@.skip(start as int).skip(1) =~= s@.skip(start as int + 1));
        assert(scan_digits(s@.skip(start as int), 0) == scan_digits(
            s@.skip(start as int + 1),
            acc as nat,
        ));
    }
    loop
        invariant
            start < i <= n,
            n == s@.len(),
            s@.skip(start as int).len() > 0,
            is_digit(s@.skip(start as int)[0]),
            scan_digits(s@.skip(start as int), 0) == scan_digits(s@.skip(i as int), acc as nat),
        decreases n - i,
    {
        if i == n {
            proof {
                assert(s@.skip(i as int).len() == 0);
            }
            return Some((acc, i));
        }
        let c = s.get_char(i);
        let v = c as u32;
        proof {
            assert(s@.skip(i as int)[0] == s@[i as int]);
        }
        if v < 48 || v > 57 {
            return Some((acc, i));
        }
        let d = (v - 48) as u64;
        proof {
            assert(is_digit(s@[i as int]));
            assert(digit_val(s@[i as int]) == d as int);
            assert(s@.skip(i as int).skip(1) =~= s@.skip(i as int + 1));
            vstd::arithmetic::div_mod::lemma_fundamental_div_mod(
                (0xffff_ffff_ffff_ffffu64 - d) as int,
                10,
            );
        }
        if acc > (0xffff_ffff_ffff_ffffu64 - d) / 10 {
            proof {
                lemma_scan_digits_ge(s@.skip(i as int + 1), (acc * 10 + d) as nat);
            }
            return None;
        }
        acc = acc * 10 + d;
        i = i + 1;
    }
}

impl ChatMessage {
    /// Decodes one line back into an envelope; succeeds exactly on the
    /// well-formed records that `spec_decode` accepts.
    #[verifier::rlimit(60)]
    pub fn from_json(data: &str) -> (r: Result<Self, DecodeError>)
        ensures
            match r {
                Ok(m) => spec_decode(data@) == Some(m@),
                Err(e) => spec_decode(data@) is None,
            },
    {
        let n = data.unicode_len();
        proof {
            reveal_strlit("{\"id\":\"");
            assert("{\"id\":\""@ =~= lit_id());
            reveal_strlit(",\"username\":\"");
            assert(",\"username\":\""@ =~= lit_username());
            reveal_strlit(",\"content\":\"");
            assert(",\"content\":\""@ =~= lit_content());
            reveal_strlit(",\"timestamp\":");
            assert(",\"timestamp\":"@ =~= lit_timestamp());
            reveal_strlit(",\"message_type\":\"");
            assert(",\"message_type\":\""@ =~= lit_kind());
            reveal_strlit("\"}");
            assert("\"}"@ =~= lit_end());
            reveal_strlit("Text");
            assert("Text"@ =~= kind_name(MessageType::Text));
            reveal_strlit("Join");
            assert("Join"@ =~= kind_name(MessageType::Join));
            reveal_strlit("Leave");
            assert("Leave"@ =~= kind_name(MessageType::Leave));
            reveal_strlit("System");
            assert("System"@ =~= kind_name(MessageType::System));
            assert(data@.skip(0) =~= data@);
        }
        let j1 = match strip_at(data, 0, "{\"id\":\"") {
            Some(j) => j,
            None => {
                return Err(DecodeError::Malformed);
            },
        };
        let (id, j2) = match scan_string_at(data, j1) {
            Some(p) => p,
            None => {
                return Err(DecodeError::Malformed);
            },
        };
        let j3 = match strip_at(data, j2, ",\"username\":\"") {
            Some(j) => j,
            None => {
                return Err(DecodeError::Malformed);
            },
        };
        let (username, j4) = match scan_string_at(data, j3) {
            Some(p) => p,
            None => {
                return Err(DecodeError::Malformed);
            },
        };
        let j5 = match strip_at(data, j4, ",\"content\":\"") {
            Some(j) => j,
            None => {
                return Err(DecodeError::Malformed);
            },
        };
        let (content, j6) = match scan_string_at(data, j5) {
            Some(p) => p,
            None => {
                return Err(DecodeError::Malformed);
            },
        };
        let j7 = match strip_at(data, j6, ",\"timestamp\":") {
            Some(j) => j,
            None => {
                return Err(DecodeError::Malformed);
            },
        };
        let (timestamp, j8) = match scan_number_at(data, j7) {
            Some(p) => p,
            None => {
                return Err(DecodeError::Malformed);
            },
        };
        let j9 = match strip_at(data, j8, ",\"message_type\":\"") {
            Some(j) => j,
            None => {
                return Err(DecodeError::Malformed);
            },
        };
        let (kind, j10) = if let Some(j) = strip_at(data, j9, "Text") {
            (MessageType::Text, j)
        } else if let Some(j) = strip_at(data, j9, "Join") {
            (MessageType::Join, j)
        } else if let Some(j) = strip_at(data, j9, "Leave") {
            (MessageType::Leave, j)
        } else if let Some(j) = strip_at(data, j9, "System") {
            (MessageType::System, j)
        } else {
            return Err(DecodeError::Malformed);
        };
        let j11 = match strip_at(data, j10, "\"}") {
            Some(j) => j,
            None => {
                return Err(DecodeError::Malformed);
            },
        };
        if j11 != n {
            proof {
                assert(data@.skip(j11 as int).len() != 0);
            }
            return Err(DecodeError::Malformed);
        }
        proof {
            assert(data@.skip(j11 as int).len() == 0);
        }
        Ok(
            ChatMessage {
                id,
                username,
                content,
                timestamp,
                message_type: kind,
            },
        )
    }
}

} // verus!
