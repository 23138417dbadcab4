//! The chat wire protocol: one JSON payload with `body`, `msg_type` and
//! `room_id` fields.
//!
//! The encoder produces exactly the canonical wire form (members in
//! declaration order, strings escaped the standard JSON way); the parser
//! accepts the three members in any order, with optional whitespace
//! between tokens and the usual string escapes, surrogate pairs
//! included, and rejects everything else — in particular an object with
//! an unknown, missing or duplicated member.  Both directions are
//! specified against the same specification-level grammar, and encoding
//! followed by decoding is proved to give the original payload back.

use vstd::prelude::*;

use crate::member::Member;

verus! {

/// A chat-room key: the customer's id and the agent's id joined by a
/// separator.
pub type RoomId = String;

/// What a payload carries: a system-generated notice or user-authored
/// content.
#[derive(Clone, Copy, Debug, PartialEq, Eq, Structural)]
pub enum MessageType {
    Tips,
    Chat,
}

/// One chat payload as it crosses the wire.
#[derive(Debug)]
pub struct ClientProtocol {
    pub body: String,
    pub msg_type: MessageType,
    pub room_id: RoomId,
}

/// The wire name of a message type.
pub open spec fn type_label(t: MessageType) -> Seq<char> {
    match t {
        MessageType::Tips => "Tips"@,
        MessageType::Chat => "Chat"@,
    }
}

/// The lowercase hex digit for a value below 16.
pub open spec fn hex_digit(n: int) -> char
    recommends
        0 <= n < 16,
{
    if n < 10 {
        ((0x30 + n) as u8) as char
    } else {
        ((0x57 + n) as u8) as char
    }
}

/// How one character appears inside a JSON string: itself, a two-character
/// short escape, or a `\u00..` escape for the remaining control characters.
pub open spec fn escaped_char(c: char) -> Seq<char> {
    if c == '"' {
        seq!['\\', '"']
    } else if c == '\\' {
        seq!['\\', '\\']
    } else if c == '\u{8}' {
        seq!['\\', 'b']
    } else if c == '\t' {
        seq!['\\', 't']
    } else if c == '\n' {
        seq!['\\', 'n']
    } else if c == '\u{c}' {
        seq!['\\', 'f']
    } else if c == '\r' {
        seq!['\\', 'r']
    } else if (c as u32) < 0x20 {
        seq!['\\', 'u', '0', '0', hex_digit((c as u32 / 16) as int), hex_digit((c as u32 % 16) as int)]
    } else {
        seq![c]
    }
}

/// A whole string, escaped character by character.
pub open spec fn escape_string(s: Seq<char>) -> Seq<char>
    decreases s.len(),
{
    if s.len() == 0 {
        Seq::empty()
    } else {
        escaped_char(s[0]) + escape_string(s.skip(1))
    }
}

/// The canonical wire form of a payload:
/// `{"body":"..","msg_type":"..","room_id":".."}` with no whitespace and
/// the members in that order.
pub open spec fn spec_encode(body: Seq<char>, t: MessageType, room_id: Seq<char>) -> Seq<char> {
    "{"@ + "\""@ + "body"@ + "\""@ + ":"@ + "\""@ + escape_string(body) + "\""@ + ","@ + "\""@
        + "msg_type"@ + "\""@ + ":"@ + "\""@ + type_label(t) + "\""@ + ","@ + "\""@
        + "room_id"@ + "\""@ + ":"@ + "\""@ + escape_string(room_id) + "\""@ + "}"@
}

/// Escaping distributes over appending one character at the end.
pub proof fn lemma_escape_push(s: Seq<char>, c: char)
    ensures
        escape_string(s.push(c)) == escape_string(s) + escaped_char(c),
    decreases s.len(),
{
    if s.len() == 0 {
        assert(s.push(c)[0] == c);
        assert(s.push(c).skip(1) =~= Seq::<char>::empty());
        assert(escape_string(Seq::<char>::empty()) == Seq::<char>::empty());
        assert(escape_string(s) == Seq::<char>::empty());
        assert(escape_string(s.push(c)) == escaped_char(c) + Seq::<char>::empty());
        assert(escaped_char(c) + Seq::<char>::empty() =~= Seq::<char>::empty() + escaped_char(c));
    } else {
        lemma_escape_push(s.skip(1), c);
        assert(s.push(c).skip(1) =~= s.skip(1).push(c));
        assert(escape_string(s.push(c)) =~= escape_string(s) + escaped_char(c));
    }
}

/// Appends one character to a string under construction.
///
/// Relies on `String::push`: it appends the given character to the end of
/// the string.
#[verifier::external_body]
fn push_char(out: &mut String, c: char)
    ensures
        final(out)@ == old(out)@.push(c),
{
    out.push(c);
}

/// Appends the escaped form of one character.
fn push_escaped(out: &mut String, c: char)
    ensures
        final(out)@ == old(out)@ + escaped_char(c),
{
    let ghost start = out@;
    let u: u32 = c as u32;
    if c == '"' {
        push_char(out, '\\');
        push_char(out, '"');
    } else if c == '\\' {
        push_char(out, '\\');
        push_char(out, '\\');
    } else if c == '\u{8}' {
        push_char(out, '\\');
        push_char(out, 'b');
    } else if c == '\t' {
        push_char(out, '\\');
        push_char(out, 't');
    } else if c == '\n' {
        push_char(out, '\\');
        push_char(out, 'n');
    } else if c == '\u{c}' {
        push_char(out, '\\');
        push_char(out, 'f');
    } else if c == '\r' {
        push_char(out, '\\');
        push_char(out, 'r');
    } else if u < 0x20 {
        push_char(out, '\\');
        push_char(out, 'u');
        push_char(out, '0');
        push_char(out, '0');
        let hi: u8 = (u / 16) as u8;
        let lo: u8 = (u % 16) as u8;
        let hic: char = if hi < 10 {
            (0x30 + hi) as char
        } else {
            (0x57 + hi) as char
        };
        let loc: char = if lo < 10 {
            (0x30 + lo) as char
        } else {
            (0x57 + lo) as char
        };
        push_char(out, hic);
        push_char(out, loc);
        assert(hic == hex_digit((c as u32 / 16) as int));
        assert(loc == hex_digit((c as u32 % 16) as int));
    } else {
        push_char(out, c);
    }
    assert(out@ =~= start + escaped_char(c));
}

/// Appends the escaped form of a whole string.
fn append_escaped(out: &mut String, s: &str)
    ensures
        final(out)@ == old(out)@ + escape_string(s@),
{
    let ghost start = out@;
    let n = s.unicode_len();
    let mut i: usize = 0;
    proof {
        assert(s@.subrange(0, 0) =~= Seq::<char>::empty());
        assert(escape_string(s@.subrange(0, 0)) =~= Seq::<char>::empty());
        assert(out@ =~= start + escape_string(s@.subrange(0, 0)));
    }
    while i < n
        invariant
            n == s@.len(),
            0 <= i <= n,
            out@ == start + escape_string(s@.subrange(0, i as int)),
        decreases n - i,
    {
        let c = s.get_char(i);
        push_escaped(out, c);
        proof {
            let pre = s@.subrange(0, i as int);
            lemma_escape_push(pre, c);
            assert(s@.subrange(0, i + 1 as int) =~= pre.push(c));
            assert(out@ =~= start + escape_string(s@.subrange(0, i + 1 as int)));
        }
        i = i + 1;
    }
    proof {
        assert(s@.subrange(0, n as int) =~= s@);
    }
}

impl ClientProtocol {
    /// A system notice addressed to a room.
    pub fn new_tips(body: String, room_id: RoomId) -> (r: Self)
        ensures
            r.body@ == body@,
            r.msg_type == MessageType::Tips,
            r.room_id@ == room_id@,
    {
        ClientProtocol { body, msg_type: MessageType::Tips, room_id }
    }

    /// The notice shown to the other members when `member` joins a room:
    /// the joiner's id followed by the joined-the-chat text.
    pub fn join(member: &Member, room_id: RoomId) -> (r: Self)
        ensures
            r.body@ == member.spec_id() + " 加入了聊天"@,
            r.msg_type == MessageType::Tips,
            r.room_id@ == room_id@,
    {
        let mut msg = String::from_str(member.id());
        msg.append(" 加入了聊天");
        ClientProtocol::new_tips(msg, room_id)
    }

    /// The notice shown to a member who has just joined a room.
    pub fn self_join(room_id: RoomId) -> (r: Self)
        ensures
            r.body@ == "你加入了聊天"@,
            r.msg_type == MessageType::Tips,
            r.room_id@ == room_id@,
    {
        let body = String::from_str("你加入了聊天");
        ClientProtocol::new_tips(body, room_id)
    }

    pub fn room_id(&self) -> (r: &RoomId)
        ensures
            r@ == self.room_id@,
    {
        &self.room_id
    }

    pub fn body(&self) -> (r: &str)
        ensures
            r@ == self.body@,
    {
        self.body.as_str()
    }

    pub fn msg_type(&self) -> (r: &MessageType)
        ensures
            *r == self.msg_type,
    {
        &self.msg_type
    }

    /// Encodes this payload into its canonical wire form.
    pub fn to_json(&self) -> (r: String)
        ensures
            r@ == spec_encode(self.body@, self.msg_type, self.room_id@),
    {
        let mut out = String::new();
        out.append("{");
        out.append("\"");
        out.append("body");
        out.append("\"");
        out.append(":");
        out.append("\"");
        append_escaped(&mut out, self.body.as_str());
        out.append("\"");
        out.append(",");
        out.append("\"");
        out.append("msg_type");
        out.append("\"");
        out.append(":");
        out.append("\"");
        match self.msg_type {
            MessageType::Tips => out.append("Tips"),
            MessageType::Chat => out.append("Chat"),
        }
        out.append("\"");
        out.append(",");
        out.append("\"");
        out.append("room_id");
        out.append("\"");
        out.append(":");
        out.append("\"");
        append_escaped(&mut out, self.room_id.as_str());
        out.append("\"");
        out.append("}");
        proof {
            assert(out@ =~= spec_encode(self.body@, self.msg_type, self.room_id@));
        }
        out
    }
}

/// JSON whitespace.
pub open spec fn is_ws(c: char) -> bool {
    c == ' ' || c == '\t' || c == '\n' || c == '\r'
}

/// The first position at or after `i` that does not hold whitespace.
pub open spec fn skip_ws(s: Seq<char>, i: int) -> int
    recommends
        0 <= i <= s.len(),
    decreases s.len() - i,
{
    if 0 <= i < s.len() && is_ws(s[i]) {
        skip_ws(s, i + 1)
    } else {
        i
    }
}

/// The value of a hex digit, upper or lower case.
pub open spec fn spec_hex_val(c: char) -> Option<int> {
    let u = c as u32;
    if 0x30 <= u && u <= 0x39 {
        Some((u - 0x30) as int)
    } else if 0x61 <= u && u <= 0x66 {
        Some((u - 0x57) as int)
    } else if 0x41 <= u && u <= 0x46 {
        Some((u - 0x37) as int)
    } else {
        None
    }
}

/// Prefixes one decoded character onto a string-parse result.
pub open spec fn prepend(c: char, r: Option<(Seq<char>, int)>) -> Option<(Seq<char>, int)> {
    match r {
        Some((t, j)) => Some((seq![c] + t, j)),
        None => None,
    }
}

/// Parses the tail of a JSON string: `i` points just past the opening
/// quote; the result is the decoded content and the position just past the
/// closing quote.  Short escapes, `\u` escapes — surrogates only as a
/// well-formed high/low pair — and verbatim characters are accepted.
pub open spec fn spec_parse_string(s: Seq<char>, i: int) -> Option<(Seq<char>, int)>
    decreases s.len() - i, 1int,
{
    if !(0 <= i < s.len()) {
        None
    } else if s[i] == '"' {
        Some((Seq::empty(), i + 1))
    } else if s[i] == '\\' {
        if i + 1 >= s.len() {
            None
        } else {
            let e = s[i + 1];
            if e == '"' {
                prepend('"', spec_parse_string(s, i + 2))
            } else if e == '\\' {
                prepend('\\', spec_parse_string(s, i + 2))
            } else if e == '/' {
                prepend('/', spec_parse_string(s, i + 2))
            } else if e == 'b' {
                prepend('\u{8}', spec_parse_string(s, i + 2))
            } else if e == 'f' {
                prepend('\u{c}', spec_parse_string(s, i + 2))
            } else if e == 'n' {
                prepend('\n', spec_parse_string(s, i + 2))
            } else if e == 'r' {
                prepend('\r', spec_parse_string(s, i + 2))
            } else if e == 't' {
                prepend('\t', spec_parse_string(s, i + 2))
            } else if e == 'u' {
                if i + 6 > s.len() {
                    None
                } else {
                    match (spec_hex_val(s[i + 2]), spec_hex_val(s[i + 3]), spec_hex_val(s[i + 4]),
                    spec_hex_val(s[i + 5])) {
                        (Some(h1), Some(h2), Some(h3), Some(h4)) => {
                            let code = ((h1 * 16 + h2) * 16 + h3) * 16 + h4;
                            if 0xD800 <= code && code <= 0xDBFF {
                                spec_parse_low_surrogate(s, i, code)
                            } else if 0xDC00 <= code && code <= 0xDFFF {
                                None
                            } else {
                                prepend((code as u32) as char, spec_parse_string(s, i + 6))
                            }
                        },
                        _ => None,
                    }
                }
            } else {
                None
            }
        }
    } else {
        prepend(s[i], spec_parse_string(s, i + 1))
    }
}

/// Parses the second escape of a surrogate pair: `i` points at the
/// backslash of the first `\u` escape, whose code `high` is a high
/// surrogate; a low surrogate must follow, and the two combine into one
/// code point.
pub open spec fn spec_parse_low_surrogate(s: Seq<char>, i: int, high: int) -> Option<
    (Seq<char>, int),
>
    recommends
        0xD800 <= high <= 0xDBFF,
    decreases s.len() - i, 0int,
{
    if i + 12 > s.len() {
        None
    } else if !(s[i + 6] == '\\' && s[i + 7] == 'u') {
        None
    } else {
        match (spec_hex_val(s[i + 8]), spec_hex_val(s[i + 9]), spec_hex_val(s[i + 10]),
        spec_hex_val(s[i + 11])) {
            (Some(l1), Some(l2), Some(l3), Some(l4)) => {
                let low = ((l1 * 16 + l2) * 16 + l3) * 16 + l4;
                if 0xDC00 <= low && low <= 0xDFFF {
                    let combined = 0x10000 + (high - 0xD800) * 0x400 + (low - 0xDC00);
                    prepend((combined as u32) as char, spec_parse_string(s, i + 12))
                } else {
                    None
                }
            },
            _ => None,
        }
    }
}

/// Demands the token `tok` at position `i`.
pub open spec fn spec_expect(s: Seq<char>, i: int, tok: Seq<char>) -> Option<int> {
    if 0 <= i && i + tok.len() <= s.len() && s.subrange(i, i + tok.len()) == tok {
        Some(i + tok.len())
    } else {
        None
    }
}

/// Parses one `"key": "value"` member: a string key, a colon, then a
/// string value, each with optional leading whitespace and the usual
/// escapes.
pub open spec fn spec_pair(s: Seq<char>, i: int) -> Option<((Seq<char>, Seq<char>), int)> {
    match spec_expect(s, skip_ws(s, i), "\""@) {
        Some(i2) => match spec_parse_string(s, i2) {
            Some((key, i3)) => match spec_expect(s, skip_ws(s, i3), ":"@) {
                Some(i5) => match spec_expect(s, skip_ws(s, i5), "\""@) {
                    Some(i7) => match spec_parse_string(s, i7) {
                        Some((val, i8)) => Some(((key, val), i8)),
                        None => None,
                    },
                    None => None,
                },
                None => None,
            },
            None => None,
        },
        None => None,
    }
}

/// The value that `key` carries among three members, provided exactly one
/// of them carries it: a duplicated or missing key gives nothing.
pub open spec fn member_value(
    k1: Seq<char>,
    v1: Seq<char>,
    k2: Seq<char>,
    v2: Seq<char>,
    k3: Seq<char>,
    v3: Seq<char>,
    key: Seq<char>,
) -> Option<Seq<char>> {
    if k1 == key {
        if k2 == key || k3 == key {
            None
        } else {
            Some(v1)
        }
    } else if k2 == key {
        if k3 == key {
            None
        } else {
            Some(v2)
        }
    } else if k3 == key {
        Some(v3)
    } else {
        None
    }
}

/// Parses a whole payload: one object holding exactly the three known
/// members, each once, in any order, with nothing but whitespace around
/// the tokens and nothing after the closing brace.  A member with any
/// other key is refused.
pub open spec fn spec_parse(s: Seq<char>) -> Option<(Seq<char>, MessageType, Seq<char>)> {
    match spec_expect(s, skip_ws(s, 0), "{"@) {
        Some(i1) => match spec_pair(s, i1) {
            Some(((k1, v1), j1)) => match spec_expect(s, skip_ws(s, j1), ","@) {
                Some(i2) => match spec_pair(s, i2) {
                    Some(((k2, v2), j2)) => match spec_expect(s, skip_ws(s, j2), ","@) {
                        Some(i3) => match spec_pair(s, i3) {
                            Some(((k3, v3), j3)) => match spec_expect(s, skip_ws(s, j3), "}"@) {
                                Some(j4) => if skip_ws(s, j4) == s.len() {
                                    match (member_value(k1, v1, k2, v2, k3, v3, "body"@),
                                    member_value(k1, v1, k2, v2, k3, v3, "msg_type"@),
                                    member_value(k1, v1, k2, v2, k3, v3, "room_id"@)) {
                                        (Some(body), Some(tname), Some(room)) => {
                                            if tname == "Tips"@ {
                                                Some((body, MessageType::Tips, room))
                                            } else if tname == "Chat"@ {
                                                Some((body, MessageType::Chat, room))
                                            } else {
                                                None
                                            }
                                        },
                                        _ => None,
                                    }
                                } else {
                                    None
                                },
                                None => None,
                            },
                            None => None,
                        },
                        None => None,
                    },
                    None => None,
                },
                None => None,
            },
            None => None,
        },
        None => None,
    }
}

/// The characters of a `&str`, in order, as a vector.
fn chars_vec(s: &str) -> (v: Vec<char>)
    ensures
        v@ == s@,
{
    let n = s.unicode_len();
    let mut v: Vec<char> = Vec::new();
    let mut i: usize = 0;
    while i < n
        invariant
            n == s@.len(),
            0 <= i <= n,
            v@ == s@.subrange(0, i as int),
        decreases n - i,
    {
        v.push(s.get_char(i));
        proof {
            assert(v@ =~= s@.subrange(0, i + 1 as int));
        }
        i = i + 1;
    }
    proof {
        assert(s@.subrange(0, n as int) =~= s@);
    }
    v
}

fn is_ws_char(c: char) -> (r: bool)
    ensures
        r == is_ws(c),
{
    c == ' ' || c == '\t' || c == '\n' || c == '\r'
}

/// Advances past whitespace.
fn ws_end(v: &Vec<char>, i: usize) -> (r: usize)
    requires
        i <= v@.len(),
    ensures
        r as int == skip_ws(v@, i as int),
        i <= r <= v@.len(),
{
    let mut j = i;
    while j < v.len() && is_ws_char(v[j])
        invariant
            i <= j <= v@.len(),
            skip_ws(v@, i as int) == skip_ws(v@, j as int),
        decreases v@.len() - j,
    {
        j = j + 1;
    }
    j
}

/// Demands the token `tok` at position `i`.
fn expect_tok(v: &Vec<char>, i: usize, tok: &str) -> (r: Option<usize>)
    requires
        i <= v@.len(),
    ensures
        match r {
            Some(j) => spec_expect(v@, i as int, tok@) == Some(j as int) && i <= j <= v@.len(),
            None => spec_expect(v@, i as int, tok@) is None,
        },
{
    let m = tok.unicode_len();
    let n = v.len();
    if n - i < m {
        return None;
    }
    let mut j: usize = 0;
    while j < m
        invariant
            0 <= j <= m,
            m == tok@.len(),
            n == v@.len(),
            i + m <= n,
            forall|k: int| 0 <= k < j ==> v@[i + k] == tok@[k],
        decreases m - j,
    {
        let idx = i + j;
        if v[idx] != tok.get_char(j) {
            proof {
                assert(v@.subrange(i as int, i + m) != tok@) by {
                    assert(v@.subrange(i as int, i + m)[j as int] != tok@[j as int]);
                }
            }
            return None;
        }
        j = j + 1;
    }
    proof {
        assert(v@.subrange(i as int, i + m) =~= tok@);
    }
    Some(i + m)
}

fn hex_val(c: char) -> (r: Option<u8>)
    ensures
        match r {
            Some(h) => spec_hex_val(c) == Some(h as int) && h < 16,
            None => spec_hex_val(c) is None,
        },
{
    let u: u32 = c as u32;
    if 0x30 <= u && u <= 0x39 {
        Some((u - 0x30) as u8)
    } else if 0x61 <= u && u <= 0x66 {
        Some((u - 0x57) as u8)
    } else if 0x41 <= u && u <= 0x46 {
        Some((u - 0x37) as u8)
    } else {
        None
    }
}

/// Decodes a code point.
///
/// Relies on `char::from_u32`: it returns the character with the given
/// code, and nothing for surrogates and for values above the highest code
/// point.
#[verifier::external_body]
fn char_from_u32(u: u32) -> (r: Option<char>)
    ensures
        (u < 0xD800 || (0xDFFF < u && u <= 0x10FFFF)) ==> r == Some(u as char),
        !(u < 0xD800 || (0xDFFF < u && u <= 0x10FFFF)) ==> r is None,
{
    char::from_u32(u)
}

/// Parses the tail of a JSON string, decoding its escapes.
fn parse_string_tail(v: &Vec<char>, start: usize) -> (r: Option<(String, usize)>)
    requires
        start <= v@.len(),
    ensures
        match r {
            Some(p) => spec_parse_string(v@, start as int) == Some((p.0@, p.1 as int)) && p.1
                <= v@.len(),
            None => spec_parse_string(v@, start as int) is None,
        },
{
    let ghost s = v@;
    let mut acc = String::new();
    let mut i = start;
    loop
        invariant
            start <= i <= s.len(),
            s == v@,
            spec_parse_string(s, start as int) == prepend_all(acc@, spec_parse_string(s, i as int)),
        decreases s.len() - i,
    {
        if i >= v.len() {
            return None;
        }
        let c = v[i];
        if c == '"' {
            proof {
                assert(acc@ + Seq::<char>::empty() =~= acc@);
            }
            return Some((acc, i + 1));
        }
        if c == '\\' {
            if i + 1 >= v.len() {
                return None;
            }
            let e = v[i + 1];
            let dec: char;
            if e == '"' {
                dec = '"';
            } else if e == '\\' {
                dec = '\\';
            } else if e == '/' {
                dec = '/';
            } else if e == 'b' {
                dec = '\u{8}';
            } else if e == 'f' {
                dec = '\u{c}';
            } else if e == 'n' {
                dec = '\n';
            } else if e == 'r' {
                dec = '\r';
            } else if e == 't' {
                dec = '\t';
            } else if e == 'u' {
                if v.len() - i < 6 {
                    return None;
                }
                let h1 = match hex_val(v[i + 2]) {
                    Some(h) => h,
                    None => {
                        return None;
                    },
                };
                let h2 = match hex_val(v[i + 3]) {
                    Some(h) => h,
                    None => {
                        return None;
                    },
                };
                let h3 = match hex_val(v[i + 4]) {
                    Some(h) => h,
                    None => {
                        return None;
                    },
                };
                let h4 = match hex_val(v[i + 5]) {
                    Some(h) => h,
                    None => {
                        return None;
                    },
                };
                let code: u32 = ((h1 as u32 * 16 + h2 as u32) * 16 + h3 as u32) * 16 + h4 as u32;
                if 0xD800 <= code && code <= 0xDBFF {
                    // A high surrogate: a low one must follow.
                    proof {
                        assert(spec_parse_string(s, i as int) == spec_parse_low_surrogate(
                            s,
                            i as int,
                            code as int,
                        ));
                    }
                    if v.len() - i < 12 {
                        return None;
                    }
                    if !(v[i + 6] == '\\' && v[i + 7] == 'u') {
                        return None;
                    }
                    let l1 = match hex_val(v[i + 8]) {
                        Some(h) => h,
                        None => {
                            return None;
                        },
                    };
                    let l2 = match hex_val(v[i + 9]) {
                        Some(h) => h,
                        None => {
                            return None;
                        },
                    };
                    let l3 = match hex_val(v[i + 10]) {
                        Some(h) => h,
                        None => {
                            return None;
                        },
                    };
                    let l4 = match hex_val(v[i + 11]) {
                        Some(h) => h,
                        None => {
                            return None;
                        },
                    };
                    let low: u32 = ((l1 as u32 * 16 + l2 as u32) * 16 + l3 as u32) * 16
                        + l4 as u32;
                    if !(0xDC00 <= low && low <= 0xDFFF) {
                        return None;
                    }
                    let combined: u32 = 0x10000 + (code - 0xD800) * 0x400 + (low - 0xDC00);
                    let u = match char_from_u32(combined) {
                        Some(u) => u,
                        None => {
                            return None;
                        },
                    };
                    proof {
                        lemma_prepend_all_push(acc@, u, spec_parse_string(s, i + 12));
                    }
                    push_char(&mut acc, u);
                    i = i + 12;
                    continue ;
                }
                if 0xDC00 <= code && code <= 0xDFFF {
                    return None;
                }
                let u = match char_from_u32(code) {
                    Some(u) => u,
                    None => {
                        return None;
                    },
                };
                proof {
                    lemma_prepend_all_push(acc@, u, spec_parse_string(s, i + 6));
                }
                push_char(&mut acc, u);
                i = i + 6;
                continue ;
            } else {
                return None;
            }
            proof {
                lemma_prepend_all_push(acc@, dec, spec_parse_string(s, i + 2));
            }
            push_char(&mut acc, dec);
            i = i + 2;
        } else {
            proof {
                lemma_prepend_all_push(acc@, c, spec_parse_string(s, i + 1));
            }
            push_char(&mut acc, c);
            i = i + 1;
        }
    }
}

/// Prefixes an already-decoded prefix onto a string-parse result.
pub open spec fn prepend_all(p: Seq<char>, r: Option<(Seq<char>, int)>) -> Option<
    (Seq<char>, int),
> {
    match r {
        Some((t, j)) => Some((p + t, j)),
        None => None,
    }
}

/// Folding one decoded character into the prefix commutes with `prepend`.
proof fn lemma_prepend_all_push(p: Seq<char>, c: char, r: Option<(Seq<char>, int)>)
    ensures
        prepend_all(p, prepend(c, r)) == prepend_all(p.push(c), r),
{
    match r {
        Some((t, j)) => {
            assert(p + (seq![c] + t) =~= p.push(c) + t);
        },
        None => {},
    }
}

/// Parses one `"key": "value"` member.
fn parse_pair(v: &Vec<char>, i: usize) -> (r: Option<((String, String), usize)>)
    requires
        i <= v@.len(),
    ensures
        match r {
            Some(p) => spec_pair(v@, i as int) == Some((((p.0).0@, (p.0).1@), p.1 as int)) && p.1
                <= v@.len(),
            None => spec_pair(v@, i as int) is None,
        },
{
    let i1 = ws_end(v, i);
    let i2 = match expect_tok(v, i1, "\"") {
        Some(j) => j,
        None => {
            return None;
        },
    };
    let (key, i3) = match parse_string_tail(v, i2) {
        Some(p) => p,
        None => {
            return None;
        },
    };
    let i4 = ws_end(v, i3);
    let i5 = match expect_tok(v, i4, ":") {
        Some(j) => j,
        None => {
            return None;
        },
    };
    let i6 = ws_end(v, i5);
    let i7 = match expect_tok(v, i6, "\"") {
        Some(j) => j,
        None => {
            return None;
        },
    };
    match parse_string_tail(v, i7) {
        Some((val, i8)) => Some(((key, val), i8)),
        None => None,
    }
}

/// The value that `key` carries among the three parsed members, if
/// exactly one of them carries it.
fn member_value_of(
    k1: &String,
    v1: &String,
    k2: &String,
    v2: &String,
    k3: &String,
    v3: &String,
    key: &str,
) -> (r: Option<String>)
    ensures
        match r {
            Some(val) => member_value(k1@, v1@, k2@, v2@, k3@, v3@, key@) == Some(val@),
            None => member_value(k1@, v1@, k2@, v2@, k3@, v3@, key@) is None,
        },
{
    let wanted = String::from_str(key);
    if k1.eq(&wanted) {
        if k2.eq(&wanted) || k3.eq(&wanted) {
            None
        } else {
            Some(v1.clone())
        }
    } else if k2.eq(&wanted) {
        if k3.eq(&wanted) {
            None
        } else {
            Some(v2.clone())
        }
    } else if k3.eq(&wanted) {
        Some(v3.clone())
    } else {
        None
    }
}

impl ClientProtocol {
    /// Decodes a payload from its wire form; anything the grammar refuses
    /// gives nothing back.
    pub fn from_json(s: &str) -> (r: Option<ClientProtocol>)
        ensures
            match r {
                Some(p) => spec_parse(s@) == Some((p.body@, p.msg_type, p.room_id@)),
                None => spec_parse(s@) is None,
            },
    {
        let v = chars_vec(s);
        let i0 = ws_end(&v, 0);
        let i1 = match expect_tok(&v, i0, "{") {
            Some(j) => j,
            None => {
                return None;
            },
        };
        let ((k1, v1), j1) = match parse_pair(&v, i1) {
            Some(p) => p,
            None => {
                return None;
            },
        };
        let s1 = ws_end(&v, j1);
        let i2 = match expect_tok(&v, s1, ",") {
            Some(j) => j,
            None => {
                return None;
            },
        };
        let ((k2, v2), j2) = match parse_pair(&v, i2) {
            Some(p) => p,
            None => {
                return None;
            },
        };
        let s2 = ws_end(&v, j2);
        let i3 = match expect_tok(&v, s2, ",") {
            Some(j) => j,
            None => {
                return None;
            },
        };
        let ((k3, v3), j3) = match parse_pair(&v, i3) {
            Some(p) => p,
            None => {
                return None;
            },
        };
        let s3 = ws_end(&v, j3);
        let j4 = match expect_tok(&v, s3, "}") {
            Some(j) => j,
            None => {
                return None;
            },
        };
        if ws_end(&v, j4) != v.len() {
            return None;
        }
        let body = match member_value_of(&k1, &v1, &k2, &v2, &k3, &v3, "body") {
            Some(val) => val,
            None => {
                return None;
            },
        };
        let tname = match member_value_of(&k1, &v1, &k2, &v2, &k3, &v3, "msg_type") {
            Some(val) => val,
            None => {
                return None;
            },
        };
        let room_id = match member_value_of(&k1, &v1, &k2, &v2, &k3, &v3, "room_id") {
            Some(val) => val,
            None => {
                return None;
            },
        };
        let msg_type = if tname.eq(&String::from_str("Tips")) {
            MessageType::Tips
        } else if tname.eq(&String::from_str("Chat")) {
            MessageType::Chat
        } else {
            return None;
        };
        Some(ClientProtocol { body, msg_type, room_id })
    }
}

/// A character that stands for itself inside a JSON string.
pub open spec fn plain_char(c: char) -> bool {
    c != '"' && c != '\\' && (c as u32) >= 0x20
}

/// Escaping leaves a string of plain characters untouched.
pub proof fn lemma_escape_plain(d: Seq<char>)
    requires
        forall|k: int| 0 <= k < d.len() ==> plain_char(d[k]),
    ensures
        escape_string(d) == d,
    decreases d.len(),
{
    if d.len() == 0 {
        assert(escape_string(d) =~= d);
    } else {
        assert(escaped_char(d[0]) == seq![d[0]]);
        lemma_escape_plain(d.skip(1));
        assert(escape_string(d) =~= d);
    }
}

/// The hex digits the encoder writes decode to the value they encode.
proof fn lemma_hex_round_trip(n: int)
    requires
        0 <= n < 16,
    ensures
        spec_hex_val(hex_digit(n)) == Some(n),
{
}

/// String-escape inversion: wherever the tail of `s` is an escaped string,
/// its closing quote and some remainder, the string parser decodes exactly
/// the original string and stops just past the closing quote.
#[verifier::rlimit(100)]
#[verifier::spinoff_prover]
pub proof fn lemma_parse_escape_inverts(s: Seq<char>, i: int, d: Seq<char>, rest: Seq<char>)
    requires
        0 <= i <= s.len(),
        s.subrange(i, s.len() as int) == escape_string(d) + seq!['"'] + rest,
    ensures
        spec_parse_string(s, i) == Some((d, i + escape_string(d).len() + 1)),
    decreases d.len(),
{
    broadcast use vstd::utf8::char_u32_cast;
    broadcast use vstd::utf8::char_is_scalar;
    broadcast use vstd::seq::axiom_seq_subrange_index;
    broadcast use vstd::seq::axiom_seq_subrange_len;

    let suf = s.subrange(i, s.len() as int);
    assert(suf.len() == s.len() - i);
    assert(suf.len() == escape_string(d).len() + 1 + rest.len());
    if d.len() == 0 {
        assert(escape_string(d) == Seq::<char>::empty());
        assert(i < s.len());
        assert(suf[0] == '"');
        assert(s[i] == suf[0]);
        assert(spec_parse_string(s, i) == Some((Seq::<char>::empty(), i + 1)));
        assert(Seq::<char>::empty() =~= d);
    } else {
        let c = d[0];
        let e = escaped_char(c);
        let d1 = d.skip(1);
        assert(escape_string(d) == e + escape_string(d1));
        assert(escape_string(d).len() == e.len() + escape_string(d1).len());
        assert(1 <= e.len() <= 6);
        assert forall|k: int| 0 <= k < e.len() implies s[i + k] == e[k] by {
            assert(k < suf.len());
            assert(s[i + k] == suf[k]);
            assert(suf[k] == ((e + escape_string(d1)) + seq!['"'] + rest)[k]);
            assert(((e + escape_string(d1)) + seq!['"'] + rest)[k] == (e + escape_string(d1))[k]);
        }
        assert(i + e.len() <= s.len());
        let tail = escape_string(d1) + seq!['"'] + rest;
        assert forall|k: int|
            0 <= k < s.len() - (i + e.len()) implies s.subrange(
            i + e.len(),
            s.len() as int,
        )[k] == tail[k] by {
            assert(s.subrange(i + e.len(), s.len() as int)[k] == s[i + e.len() + k]);
            assert(s[i + e.len() + k] == suf[e.len() + k]);
            assert(suf[e.len() + k] == ((e + escape_string(d1)) + seq!['"'] + rest)[e.len() + k]);
        }
        assert(s.subrange(i + e.len(), s.len() as int) =~= tail);
        lemma_parse_escape_inverts(s, i + e.len(), d1, rest);
        assert(seq![c] + d1 =~= d);
        lemma_parse_one_escape(s, i, c);
    }
}

/// One escaped character at position `i` parses back to that character:
/// the parser consumes exactly the escape and prefixes the character.
#[verifier::rlimit(100)]
#[verifier::spinoff_prover]
proof fn lemma_parse_one_escape(s: Seq<char>, i: int, c: char)
    requires
        0 <= i,
        i + escaped_char(c).len() < s.len(),
        forall|k: int| 0 <= k < escaped_char(c).len() ==> s[i + k] == escaped_char(c)[k],
    ensures
        spec_parse_string(s, i) == prepend(
            c,
            spec_parse_string(s, i + escaped_char(c).len()),
        ),
{
    broadcast use vstd::utf8::char_u32_cast;
    broadcast use vstd::utf8::char_is_scalar;

    let e = escaped_char(c);
    assert(s[i + 0] == e[0]);
    if e.len() > 1 {
        assert(s[i + 1] == e[1]);
    }
    if e.len() > 5 {
        assert(s[i + 2] == e[2]);
        assert(s[i + 3] == e[3]);
        assert(s[i + 4] == e[4]);
        assert(s[i + 5] == e[5]);
    }
    if c == '"' {
        assert(s[i] == '\\' && s[i + 1] == '"');
        assert(spec_parse_string(s, i) == prepend(c, spec_parse_string(s, i + 2)));
    } else if c == '\\' {
        assert(s[i] == '\\' && s[i + 1] == '\\');
        assert(spec_parse_string(s, i) == prepend(c, spec_parse_string(s, i + 2)));
    } else if c == '\u{8}' {
        assert(s[i] == '\\' && s[i + 1] == 'b');
        assert(spec_parse_string(s, i) == prepend(c, spec_parse_string(s, i + 2)));
    } else if c == '\t' {
        assert(s[i] == '\\' && s[i + 1] == 't');
        assert(spec_parse_string(s, i) == prepend(c, spec_parse_string(s, i + 2)));
    } else if c == '\n' {
        assert(s[i] == '\\' && s[i + 1] == 'n');
        assert(spec_parse_string(s, i) == prepend(c, spec_parse_string(s, i + 2)));
    } else if c == '\u{c}' {
        assert(s[i] == '\\' && s[i + 1] == 'f');
        assert(spec_parse_string(s, i) == prepend(c, spec_parse_string(s, i + 2)));
    } else if c == '\r' {
        assert(s[i] == '\\' && s[i + 1] == 'r');
        assert(spec_parse_string(s, i) == prepend(c, spec_parse_string(s, i + 2)));
    } else if (c as u32) < 0x20 {
        let u = c as u32;
        let hi = (u / 16) as int;
        let lo = (u % 16) as int;
        assert(s[i] == '\\' && s[i + 1] == 'u');
        assert(s[i + 2] == '0' && s[i + 3] == '0');
        assert(s[i + 4] == hex_digit(hi) && s[i + 5] == hex_digit(lo));
        lemma_hex_round_trip(hi);
        lemma_hex_round_trip(lo);
        assert(spec_hex_val(s[i + 2]) == Some(0int));
        assert(spec_hex_val(s[i + 3]) == Some(0int));
        let code = ((0int * 16 + 0) * 16 + hi) * 16 + lo;
        assert(code == u) by {
            assert(u / 16 * 16 + u % 16 == u);
        }
        assert(!(0xD800 <= code <= 0xDFFF));
        assert(code as u32 == c as u32);
        vstd::utf8::char_u32_cast(c, code as u32);
        assert((code as u32) as char == c);
        assert(spec_parse_string(s, i) == prepend(c, spec_parse_string(s, i + 6)));
    } else {
        assert(plain_char(c));
        assert(s[i] == c);
        assert(spec_parse_string(s, i) == prepend(c, spec_parse_string(s, i + 1)));
    }
}

/// The three member keys, escaped, are themselves: every character is
/// plain.
proof fn lemma_keys_plain()
    ensures
        escape_string("body"@) == "body"@,
        escape_string("msg_type"@) == "msg_type"@,
        escape_string("room_id"@) == "room_id"@,
{
    reveal_strlit("body");
    reveal_strlit("msg_type");
    reveal_strlit("room_id");
    assert forall|k: int| 0 <= k < "body"@.len() implies plain_char("body"@[k]) by {
        if k == 0 {
            assert(plain_char("body"@[0]));
        } else if k == 1 {
            assert(plain_char("body"@[1]));
        } else if k == 2 {
            assert(plain_char("body"@[2]));
        } else {
            assert(plain_char("body"@[3]));
        }
    }
    lemma_escape_plain("body"@);
    assert forall|k: int| 0 <= k < "msg_type"@.len() implies plain_char("msg_type"@[k]) by {
        if k == 0 {
            assert(plain_char("msg_type"@[0]));
        } else if k == 1 {
            assert(plain_char("msg_type"@[1]));
        } else if k == 2 {
            assert(plain_char("msg_type"@[2]));
        } else if k == 3 {
            assert(plain_char("msg_type"@[3]));
        } else if k == 4 {
            assert(plain_char("msg_type"@[4]));
        } else if k == 5 {
            assert(plain_char("msg_type"@[5]));
        } else if k == 6 {
            assert(plain_char("msg_type"@[6]));
        } else {
            assert(plain_char("msg_type"@[7]));
        }
    }
    lemma_escape_plain("msg_type"@);
    assert forall|k: int| 0 <= k < "room_id"@.len() implies plain_char("room_id"@[k]) by {
        if k == 0 {
            assert(plain_char("room_id"@[0]));
        } else if k == 1 {
            assert(plain_char("room_id"@[1]));
        } else if k == 2 {
            assert(plain_char("room_id"@[2]));
        } else if k == 3 {
            assert(plain_char("room_id"@[3]));
        } else if k == 4 {
            assert(plain_char("room_id"@[4]));
        } else if k == 5 {
            assert(plain_char("room_id"@[5]));
        } else {
            assert(plain_char("room_id"@[6]));
        }
    }
    lemma_escape_plain("room_id"@);
}

/// The body key of the wire form parses as a string.
#[verifier::rlimit(100)]
#[verifier::spinoff_prover]
proof fn lemma_rt_body_key(body: Seq<char>, t: MessageType, room_id: Seq<char>)
    ensures
        spec_parse_string(spec_encode(body, t, room_id), 2) == Some(("body"@, 7int)),
{
    reveal_strlit("{");
    reveal_strlit("}");
    reveal_strlit(",");
    reveal_strlit(":");
    reveal_strlit("\"");
    reveal_strlit("body");
    reveal_strlit("msg_type");
    reveal_strlit("room_id");
    reveal_strlit("Tips");
    reveal_strlit("Chat");
    lemma_keys_plain();
    let s = spec_encode(body, t, room_id);
    let e1 = escape_string(body);
    let tn = type_label(t);
    let e2 = escape_string(room_id);
    let p1 = 9 + e1.len() as int;
    let p2 = p1 + 14;
    let p3 = p2 + 4;
    let p4 = p3 + 13;
    let p5 = p4 + e2.len() as int;
    assert(tn.len() == 4);
    assert(s.len() == p5 + 2);

    let rest_k1 = ":"@ + "\""@ + e1 + "\""@ + ","@ + "\""@ + "msg_type"@ + "\""@ + ":"@
        + "\""@ + tn + "\""@ + ","@ + "\""@ + "room_id"@ + "\""@ + ":"@ + "\""@ + e2 + "\""@
        + "}"@;
    assert(s.subrange(2, s.len() as int) =~= escape_string("body"@) + seq!['"'] + rest_k1);
    lemma_parse_escape_inverts(s, 2, "body"@, rest_k1);
}

/// The body value of the wire form parses back to the body.
#[verifier::rlimit(100)]
#[verifier::spinoff_prover]
proof fn lemma_rt_body_value(body: Seq<char>, t: MessageType, room_id: Seq<char>)
    ensures
        spec_parse_string(spec_encode(body, t, room_id), 9) == Some(
            (body, 9 + escape_string(body).len() as int + 1),
        ),
{
    reveal_strlit("{");
    reveal_strlit("}");
    reveal_strlit(",");
    reveal_strlit(":");
    reveal_strlit("\"");
    reveal_strlit("body");
    reveal_strlit("msg_type");
    reveal_strlit("room_id");
    reveal_strlit("Tips");
    reveal_strlit("Chat");
    lemma_keys_plain();
    let s = spec_encode(body, t, room_id);
    let e1 = escape_string(body);
    let tn = type_label(t);
    let e2 = escape_string(room_id);
    let p1 = 9 + e1.len() as int;
    let p2 = p1 + 14;
    let p3 = p2 + 4;
    let p4 = p3 + 13;
    let p5 = p4 + e2.len() as int;
    assert(tn.len() == 4);
    assert(s.len() == p5 + 2);

    let rest_b = ","@ + "\""@ + "msg_type"@ + "\""@ + ":"@ + "\""@ + tn + "\""@ + ","@
        + "\""@ + "room_id"@ + "\""@ + ":"@ + "\""@ + e2 + "\""@ + "}"@;
    assert(s.subrange(9, s.len() as int) =~= e1 + seq!['"'] + rest_b);
    lemma_parse_escape_inverts(s, 9, body, rest_b);
}

/// The type key of the wire form parses as a string.
#[verifier::rlimit(100)]
#[verifier::spinoff_prover]
proof fn lemma_rt_type_key(body: Seq<char>, t: MessageType, room_id: Seq<char>)
    ensures
        ({
            let p1 = 9 + escape_string(body).len() as int;
            spec_parse_string(spec_encode(body, t, room_id), p1 + 3) == Some(
                ("msg_type"@, p1 + 12),
            )
        }),
{
    reveal_strlit("{");
    reveal_strlit("}");
    reveal_strlit(",");
    reveal_strlit(":");
    reveal_strlit("\"");
    reveal_strlit("body");
    reveal_strlit("msg_type");
    reveal_strlit("room_id");
    reveal_strlit("Tips");
    reveal_strlit("Chat");
    lemma_keys_plain();
    let s = spec_encode(body, t, room_id);
    let e1 = escape_string(body);
    let tn = type_label(t);
    let e2 = escape_string(room_id);
    let p1 = 9 + e1.len() as int;
    let p2 = p1 + 14;
    let p3 = p2 + 4;
    let p4 = p3 + 13;
    let p5 = p4 + e2.len() as int;
    assert(tn.len() == 4);
    assert(s.len() == p5 + 2);

    let rest_k2 = ":"@ + "\""@ + tn + "\""@ + ","@ + "\""@ + "room_id"@ + "\""@ + ":"@
        + "\""@ + e2 + "\""@ + "}"@;
    assert(s.subrange(p1 + 3, s.len() as int) =~= escape_string("msg_type"@) + seq!['"']
        + rest_k2);
    lemma_parse_escape_inverts(s, p1 + 3, "msg_type"@, rest_k2);
}

/// The type name of the wire form parses back to the type name.
#[verifier::rlimit(100)]
#[verifier::spinoff_prover]
proof fn lemma_rt_type_value(body: Seq<char>, t: MessageType, room_id: Seq<char>)
    ensures
        ({
            let p2 = 9 + escape_string(body).len() as int + 14;
            spec_parse_string(spec_encode(body, t, room_id), p2) == Some(
                (type_label(t), p2 + 5),
            )
        }),
{
    reveal_strlit("{");
    reveal_strlit("}");
    reveal_strlit(",");
    reveal_strlit(":");
    reveal_strlit("\"");
    reveal_strlit("body");
    reveal_strlit("msg_type");
    reveal_strlit("room_id");
    reveal_strlit("Tips");
    reveal_strlit("Chat");
    lemma_keys_plain();
    let s = spec_encode(body, t, room_id);
    let e1 = escape_string(body);
    let tn = type_label(t);
    let e2 = escape_string(room_id);
    let p1 = 9 + e1.len() as int;
    let p2 = p1 + 14;
    let p3 = p2 + 4;
    let p4 = p3 + 13;
    let p5 = p4 + e2.len() as int;
    assert(tn.len() == 4);
    assert(s.len() == p5 + 2);

    assert forall|k: int| 0 <= k < tn.len() implies plain_char(tn[k]) by {
        if k == 0 {
            assert(plain_char(tn[0]));
        } else if k == 1 {
            assert(plain_char(tn[1]));
        } else if k == 2 {
            assert(plain_char(tn[2]));
        } else {
            assert(plain_char(tn[3]));
        }
    }
    lemma_escape_plain(tn);
    let rest_t = ","@ + "\""@ + "room_id"@ + "\""@ + ":"@ + "\""@ + e2 + "\""@ + "}"@;
    assert(s.subrange(p2, s.len() as int) =~= escape_string(tn) + seq!['"'] + rest_t);
    lemma_parse_escape_inverts(s, p2, tn, rest_t);
    assert(spec_parse_string(s, p2) == Some((tn, p3 + 1)));
}

/// The room key of the wire form parses as a string.
#[verifier::rlimit(100)]
#[verifier::spinoff_prover]
proof fn lemma_rt_room_key(body: Seq<char>, t: MessageType, room_id: Seq<char>)
    ensures
        ({
            let p3 = 9 + escape_string(body).len() as int + 18;
            spec_parse_string(spec_encode(body, t, room_id), p3 + 3) == Some(
                ("room_id"@, p3 + 11),
            )
        }),
{
    reveal_strlit("{");
    reveal_strlit("}");
    reveal_strlit(",");
    reveal_strlit(":");
    reveal_strlit("\"");
    reveal_strlit("body");
    reveal_strlit("msg_type");
    reveal_strlit("room_id");
    reveal_strlit("Tips");
    reveal_strlit("Chat");
    lemma_keys_plain();
    let s = spec_encode(body, t, room_id);
    let e1 = escape_string(body);
    let tn = type_label(t);
    let e2 = escape_string(room_id);
    let p1 = 9 + e1.len() as int;
    let p2 = p1 + 14;
    let p3 = p2 + 4;
    let p4 = p3 + 13;
    let p5 = p4 + e2.len() as int;
    assert(tn.len() == 4);
    assert(s.len() == p5 + 2);

    let rest_k3 = ":"@ + "\""@ + e2 + "\""@ + "}"@;
    assert(s.subrange(p3 + 3, s.len() as int) =~= escape_string("room_id"@) + seq!['"']
        + rest_k3);
    lemma_parse_escape_inverts(s, p3 + 3, "room_id"@, rest_k3);
}

/// The room value of the wire form parses back to the room id.
#[verifier::rlimit(100)]
#[verifier::spinoff_prover]
proof fn lemma_rt_room_value(body: Seq<char>, t: MessageType, room_id: Seq<char>)
    ensures
        ({
            let p4 = 9 + escape_string(body).len() as int + 31;
            spec_parse_string(spec_encode(body, t, room_id), p4) == Some(
                (room_id, p4 + escape_string(room_id).len() as int + 1),
            )
        }),
{
    reveal_strlit("{");
    reveal_strlit("}");
    reveal_strlit(",");
    reveal_strlit(":");
    reveal_strlit("\"");
    reveal_strlit("body");
    reveal_strlit("msg_type");
    reveal_strlit("room_id");
    reveal_strlit("Tips");
    reveal_strlit("Chat");
    lemma_keys_plain();
    let s = spec_encode(body, t, room_id);
    let e1 = escape_string(body);
    let tn = type_label(t);
    let e2 = escape_string(room_id);
    let p1 = 9 + e1.len() as int;
    let p2 = p1 + 14;
    let p3 = p2 + 4;
    let p4 = p3 + 13;
    let p5 = p4 + e2.len() as int;
    assert(tn.len() == 4);
    assert(s.len() == p5 + 2);

    let rest_r = "}"@;
    assert(s.subrange(p4, s.len() as int) =~= e2 + seq!['"'] + rest_r);
    lemma_parse_escape_inverts(s, p4, room_id, rest_r);
}

/// The head of the wire form: the opening brace and the body member.
#[verifier::rlimit(100)]
#[verifier::spinoff_prover]
proof fn lemma_rt_head(body: Seq<char>, t: MessageType, room_id: Seq<char>)
    ensures
        ({
            let s = spec_encode(body, t, room_id);
            let p1 = 9 + escape_string(body).len() as int;
            &&& skip_ws(s, 0) == 0
            &&& spec_expect(s, 0, "{"@) == Some(1int)
            &&& spec_pair(s, 1) == Some((("body"@, body), p1 + 1))
        }),
{
    reveal_strlit("{");
    reveal_strlit("}");
    reveal_strlit(",");
    reveal_strlit(":");
    reveal_strlit("\"");
    reveal_strlit("body");
    reveal_strlit("msg_type");
    reveal_strlit("room_id");
    reveal_strlit("Tips");
    reveal_strlit("Chat");
    lemma_rt_body_key(body, t, room_id);
    lemma_rt_body_value(body, t, room_id);
    let s = spec_encode(body, t, room_id);
    let e1 = escape_string(body);
    let tn = type_label(t);
    let e2 = escape_string(room_id);
    let p1 = 9 + e1.len() as int;
    let p2 = p1 + 14;
    let p3 = p2 + 4;
    let p4 = p3 + 13;
    let p5 = p4 + e2.len() as int;
    assert(tn.len() == 4);
    assert(s.len() == p5 + 2);

    assert(s[0] == '{');
    assert(!is_ws('{'));
    assert(skip_ws(s, 0) == 0);
    assert(s.subrange(0, 1) =~= "{"@);
    assert(spec_expect(s, 0, "{"@) == Some(1int));
    assert(s[1] == '"' && !is_ws('"'));
    assert(skip_ws(s, 1) == 1);
    assert(s.subrange(1, 2) =~= "\""@);
    assert(spec_expect(s, 1, "\""@) == Some(2int));
    assert(s[7] == ':' && !is_ws(':'));
    assert(skip_ws(s, 7) == 7);
    assert(s.subrange(7, 8) =~= ":"@);
    assert(spec_expect(s, 7, ":"@) == Some(8int));
    assert(s[8] == '"');
    assert(skip_ws(s, 8) == 8);
    assert(s.subrange(8, 9) =~= "\""@);
    assert(spec_expect(s, 8, "\""@) == Some(9int));
    assert(spec_pair(s, 1) == Some((("body"@, body), p1 + 1)));
}

/// The middle of the wire form: the comma and the type member.
#[verifier::rlimit(100)]
#[verifier::spinoff_prover]
proof fn lemma_rt_type(body: Seq<char>, t: MessageType, room_id: Seq<char>)
    ensures
        ({
            let s = spec_encode(body, t, room_id);
            let p1 = 9 + escape_string(body).len() as int;
            let p3 = p1 + 18;
            &&& skip_ws(s, p1 + 1) == p1 + 1
            &&& spec_expect(s, p1 + 1, ","@) == Some(p1 + 2)
            &&& spec_pair(s, p1 + 2) == Some((("msg_type"@, type_label(t)), p3 + 1))
            &&& (t is Tips ==> type_label(t) == "Tips"@)
            &&& (t is Chat ==> type_label(t) == "Chat"@)
            &&& "Chat"@ != "Tips"@
        }),
{
    reveal_strlit("{");
    reveal_strlit("}");
    reveal_strlit(",");
    reveal_strlit(":");
    reveal_strlit("\"");
    reveal_strlit("body");
    reveal_strlit("msg_type");
    reveal_strlit("room_id");
    reveal_strlit("Tips");
    reveal_strlit("Chat");
    lemma_rt_type_key(body, t, room_id);
    lemma_rt_type_value(body, t, room_id);
    let s = spec_encode(body, t, room_id);
    let e1 = escape_string(body);
    let tn = type_label(t);
    let e2 = escape_string(room_id);
    let p1 = 9 + e1.len() as int;
    let p2 = p1 + 14;
    let p3 = p2 + 4;
    let p4 = p3 + 13;
    let p5 = p4 + e2.len() as int;
    assert(tn.len() == 4);
    assert(s.len() == p5 + 2);

    assert(s[p1 + 1] == ',' && !is_ws(','));
    assert(skip_ws(s, p1 + 1) == p1 + 1);
    assert(s.subrange(p1 + 1, p1 + 2) =~= ","@);
    assert(spec_expect(s, p1 + 1, ","@) == Some(p1 + 2));
    assert(s[p1 + 2] == '"');
    assert(skip_ws(s, p1 + 2) == p1 + 2);
    assert(s.subrange(p1 + 2, p1 + 3) =~= "\""@);
    assert(spec_expect(s, p1 + 2, "\""@) == Some(p1 + 3));
    assert(s[p1 + 12] == ':');
    assert(skip_ws(s, p1 + 12) == p1 + 12);
    assert(s.subrange(p1 + 12, p1 + 13) =~= ":"@);
    assert(spec_expect(s, p1 + 12, ":"@) == Some(p1 + 13));
    assert(s[p1 + 13] == '"');
    assert(skip_ws(s, p1 + 13) == p1 + 13);
    assert(s.subrange(p1 + 13, p2) =~= "\""@);
    assert(spec_expect(s, p1 + 13, "\""@) == Some(p2));
    assert(spec_pair(s, p1 + 2) == Some((("msg_type"@, tn), p3 + 1)));
    assert("Chat"@[0] != "Tips"@[0]);
    assert("Chat"@ != "Tips"@);
}

/// The tail of the wire form: the room member and the closing brace.
#[verifier::rlimit(100)]
#[verifier::spinoff_prover]
proof fn lemma_rt_tail(body: Seq<char>, t: MessageType, room_id: Seq<char>)
    ensures
        ({
            let s = spec_encode(body, t, room_id);
            let p3 = 9 + escape_string(body).len() as int + 18;
            let p5 = p3 + 13 + escape_string(room_id).len() as int;
            &&& skip_ws(s, p3 + 1) == p3 + 1
            &&& spec_expect(s, p3 + 1, ","@) == Some(p3 + 2)
            &&& spec_pair(s, p3 + 2) == Some((("room_id"@, room_id), p5 + 1))
            &&& skip_ws(s, p5 + 1) == p5 + 1
            &&& spec_expect(s, p5 + 1, "}"@) == Some(p5 + 2)
            &&& skip_ws(s, p5 + 2) == s.len()
        }),
{
    reveal_strlit("{");
    reveal_strlit("}");
    reveal_strlit(",");
    reveal_strlit(":");
    reveal_strlit("\"");
    reveal_strlit("body");
    reveal_strlit("msg_type");
    reveal_strlit("room_id");
    reveal_strlit("Tips");
    reveal_strlit("Chat");
    lemma_rt_room_key(body, t, room_id);
    lemma_rt_room_value(body, t, room_id);
    let s = spec_encode(body, t, room_id);
    let e1 = escape_string(body);
    let tn = type_label(t);
    let e2 = escape_string(room_id);
    let p1 = 9 + e1.len() as int;
    let p2 = p1 + 14;
    let p3 = p2 + 4;
    let p4 = p3 + 13;
    let p5 = p4 + e2.len() as int;
    assert(tn.len() == 4);
    assert(s.len() == p5 + 2);

    assert(s[p3 + 1] == ',' && !is_ws(','));
    assert(skip_ws(s, p3 + 1) == p3 + 1);
    assert(s.subrange(p3 + 1, p3 + 2) =~= ","@);
    assert(spec_expect(s, p3 + 1, ","@) == Some(p3 + 2));
    assert(s[p3 + 2] == '"');
    assert(skip_ws(s, p3 + 2) == p3 + 2);
    assert(s.subrange(p3 + 2, p3 + 3) =~= "\""@);
    assert(spec_expect(s, p3 + 2, "\""@) == Some(p3 + 3));
    assert(s[p3 + 11] == ':');
    assert(skip_ws(s, p3 + 11) == p3 + 11);
    assert(s.subrange(p3 + 11, p3 + 12) =~= ":"@);
    assert(spec_expect(s, p3 + 11, ":"@) == Some(p3 + 12));
    assert(s[p3 + 12] == '"');
    assert(skip_ws(s, p3 + 12) == p3 + 12);
    assert(s.subrange(p3 + 12, p4) =~= "\""@);
    assert(spec_expect(s, p3 + 12, "\""@) == Some(p4));
    assert(spec_pair(s, p3 + 2) == Some((("room_id"@, room_id), p5 + 1)));
    assert(s[p5 + 1] == '}' && !is_ws('}'));
    assert(skip_ws(s, p5 + 1) == p5 + 1);
    assert(s.subrange(p5 + 1, p5 + 2) =~= "}"@);
    assert(spec_expect(s, p5 + 1, "}"@) == Some(p5 + 2));
    assert(skip_ws(s, p5 + 2) == s.len());
}

/// Round trip: decoding the canonical wire form of any payload gives the
/// payload back, whatever its body, type and room id.
#[verifier::rlimit(100)]
#[verifier::spinoff_prover]
pub proof fn lemma_json_round_trip(body: Seq<char>, t: MessageType, room_id: Seq<char>)
    ensures
        spec_parse(spec_encode(body, t, room_id)) == Some((body, t, room_id)),
{
    lemma_rt_head(body, t, room_id);
    lemma_rt_type(body, t, room_id);
    lemma_rt_tail(body, t, room_id);
    reveal_strlit("body");
    reveal_strlit("msg_type");
    reveal_strlit("room_id");
    let s = spec_encode(body, t, room_id);
    let tn = type_label(t);
    assert("body"@.len() == 4 && "msg_type"@.len() == 8 && "room_id"@.len() == 7);
    assert("body"@ != "msg_type"@ && "body"@ != "room_id"@ && "msg_type"@ != "room_id"@);
    assert(member_value("body"@, body, "msg_type"@, tn, "room_id"@, room_id, "body"@)
        == Some(body));
    assert(member_value("body"@, body, "msg_type"@, tn, "room_id"@, room_id, "msg_type"@)
        == Some(tn));
    assert(member_value("body"@, body, "msg_type"@, tn, "room_id"@, room_id, "room_id"@)
        == Some(room_id));
    assert(spec_parse(s) == Some((body, t, room_id)));
}

impl Clone for ClientProtocol {
    fn clone(&self) -> (r: Self)
        ensures
            r == *self,
    {
        ClientProtocol {
            body: self.body.clone(),
            msg_type: self.msg_type,
            room_id: self.room_id.clone(),
        }
    }
}

} // verus!
