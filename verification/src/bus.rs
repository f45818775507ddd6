//! Transcript messages for the broadcast socket: one JSON object per line,
//! `{"text":...,"app":...,"mode":...,"ts":...}`.

use vstd::prelude::*;

use crate::daemon;
use crate::daemon::runtime_dir;
use crate::state;
use crate::state::join_path;
use crate::unicode;

verus! {

/// A control character, which JSON allows in strings only when escaped.
pub open spec fn control(c: char) -> bool {
    (c as u32) < 0x20
}

/// The hexadecimal digit that writes `n`.
pub open spec fn hex(n: u32) -> char
    recommends
        n < 16,
{
    if n < 10 {
        ('0' as u32 + n) as char
    } else {
        ('a' as u32 + (n - 10)) as char
    }
}

/// A character as it stands in a JSON string.
pub open spec fn escaped_char(c: char) -> Seq<char> {
    if c == '"' {
        seq!['\\', '"']
    } else if c == '\\' {
        seq!['\\', '\\']
    } else if c == '\n' {
        seq!['\\', 'n']
    } else if c == '\r' {
        seq!['\\', 'r']
    } else if c == '\t' {
        seq!['\\', 't']
    } else if control(c) {
        seq!['\\', 'u', '0', '0', hex((c as u32) / 16), hex((c as u32) % 16)]
    } else {
        seq![c]
    }
}

/// A text as it stands in a JSON string.
pub open spec fn escaped(s: Seq<char>) -> Seq<char>
    decreases s.len(),
{
    if s.len() == 0 {
        s
    } else {
        escaped(s.drop_last()) + escaped_char(s.last())
    }
}

/// The message for a transcript. `ts` is a number already written out.
pub open spec fn message(
    text: Seq<char>,
    app: Seq<char>,
    mode: Seq<char>,
    ts: Seq<char>,
) -> Seq<char> {
    "{\"text\":\""@ + escaped(text) + "\",\"app\":\""@ + escaped(app) + "\",\"mode\":\""@
        + escaped(mode) + "\",\"ts\":"@ + ts + "}\n"@
}

fn hex_digit(n: u8) -> (r: char)
    requires
        n < 16,
    ensures
        r == hex(n as u32),
{
    if n < 10 {
        (('0' as u8) + n) as char
    } else {
        (('a' as u8) + (n - 10)) as char
    }
}

/// Escapes a text for a JSON string: quotes, backslashes and control characters.
pub fn json_escape(s: &str) -> (r: String)
    ensures
        r@ == escaped(s@),
{
    let mut out = String::new();
    for c in it: s.chars()
        invariant
            it.seq() == s@,
            out@ == escaped(s@.take(it.index() as int)),
    {
        let ghost i = it.index() as int;
        let ghost start = out@;
        proof {
            assert(s@.take(i + 1).drop_last() =~= s@.take(i));
            assert(s@.take(i + 1).last() == c);
        }
        if c == '"' {
            out.push('\\');
            out.push('"');
        } else if c == '\\' {
            out.push('\\');
            out.push('\\');
        } else if c == '\n' {
            out.push('\\');
            out.push('n');
        } else if c == '\r' {
            out.push('\\');
            out.push('r');
        } else if c == '\t' {
            out.push('\\');
            out.push('t');
        } else if (c as u32) < 0x20 {
            proof {
                unicode::lemma_code(c);
            }
            let n: u8 = c as u8;
            out.push('\\');
            out.push('u');
            out.push('0');
            out.push('0');
            out.push(hex_digit(n / 16));
            out.push(hex_digit(n % 16));
            assert(n == c as u32);
        } else {
            out.push(c);
        }
        assert(out@ =~= start + escaped_char(c));
    }
    assert(s@.take(s@.len() as int) =~= s@);
    out
}

/// The message for a transcript, a line of its own. `ts` is a number already written out.
pub fn transcript_line(text: &str, app: &str, mode: &str, ts: &str) -> (r: String)
    ensures
        r@ == message(text@, app@, mode@, ts@),
{
    let mut out = "{\"text\":\"".to_owned();
    out.append(json_escape(text).as_str());
    out.append("\",\"app\":\"");
    out.append(json_escape(app).as_str());
    out.append("\",\"mode\":\"");
    out.append(json_escape(mode).as_str());
    out.append("\",\"ts\":");
    out.append(ts);
    out.append("}\n");
    out
}

/// The broadcast socket: the one configured, else one in the directory for runtime files.
pub fn socket_path(configured: Option<&str>, xdg_runtime: Option<&str>) -> (r: String)
    ensures
        r@ == match configured {
            Some(path) => path@,
            None => state::joined(daemon::runtime(state::setting(xdg_runtime)), "voicechat.sock"@),
        },
{
    match configured {
        Some(path) => path.to_owned(),
        None => join_path(runtime_dir(xdg_runtime).as_str(), "voicechat.sock"),
    }
}

/// The character that a backslash and `c` stand for.
pub open spec fn short_escape(c: char) -> Option<char> {
    if c == '"' || c == '\\' || c == '/' {
        Some(c)
    } else if c == 'n' {
        Some('\n')
    } else if c == 'r' {
        Some('\r')
    } else if c == 't' {
        Some('\t')
    } else if c == 'b' {
        Some('\u{8}')
    } else if c == 'f' {
        Some('\u{c}')
    } else {
        None
    }
}

/// The value of a hexadecimal digit.
pub open spec fn hex_value(c: char) -> Option<int> {
    if '0' <= c <= '9' {
        Some(c as int - '0' as int)
    } else if 'a' <= c <= 'f' {
        Some(c as int - 'a' as int + 10)
    } else if 'A' <= c <= 'F' {
        Some(c as int - 'A' as int + 10)
    } else {
        None
    }
}

/// The number that four hexadecimal digits write.
pub open spec fn hex_number(t: Seq<char>) -> Option<int>
    recommends
        t.len() == 4,
{
    match (hex_value(t[0]), hex_value(t[1]), hex_value(t[2]), hex_value(t[3])) {
        (Some(a), Some(b), Some(c), Some(d)) => Some(a * 4096 + b * 256 + c * 16 + d),
        _ => None,
    }
}

/// `c` in front of what was read.
pub open spec fn in_front(
    c: char,
    read: Option<(Seq<char>, Seq<char>)>,
) -> Option<(Seq<char>, Seq<char>)> {
    match read {
        Some((s, rest)) => Some((seq![c] + s, rest)),
        None => None,
    }
}

/// Reads a JSON string, from behind its opening quote on: the text that it stands for, and what
/// follows its closing quote. Characters outside the basic plane stand for themselves.
pub open spec fn read_string(t: Seq<char>) -> Option<(Seq<char>, Seq<char>)>
    decreases t.len(),
{
    if t.len() == 0 || control(t[0]) {
        None
    } else if t[0] == '"' {
        Some((Seq::empty(), t.skip(1)))
    } else if t[0] != '\\' {
        in_front(t[0], read_string(t.skip(1)))
    } else if t.len() >= 2 && short_escape(t[1]) is Some {
        in_front(short_escape(t[1])->0, read_string(t.skip(2)))
    } else if t.len() >= 6 && t[1] == 'u' && hex_number(t.subrange(2, 6)) is Some && !(0xd800
        <= hex_number(t.subrange(2, 6))->0 < 0xe000) {
        in_front((hex_number(t.subrange(2, 6))->0) as char, read_string(t.skip(6)))
    } else {
        None
    }
}

/// What follows `start` at the front of `t`.
pub open spec fn read_exactly(start: Seq<char>, t: Seq<char>) -> Option<Seq<char>> {
    if start.len() <= t.len() && t.take(start.len() as int) == start {
        Some(t.skip(start.len() as int))
    } else {
        None
    }
}

/// What a JSON reader makes of `t`, which is `start`, a string without its opening quote, and
/// some rest.
pub open spec fn read_field(start: Seq<char>, t: Seq<char>) -> Option<(Seq<char>, Seq<char>)> {
    match read_exactly(start, t) {
        Some(rest) => read_string(rest),
        None => None,
    }
}

/// The text, the application and the mode in a message, and what follows them.
pub open spec fn read_message(line: Seq<char>) -> Option<
    (Seq<char>, Seq<char>, Seq<char>, Seq<char>),
> {
    match read_field("{\"text\":\""@, line) {
        Some((text, a)) => match read_field(",\"app\":\""@, a) {
            Some((app, b)) => match read_field(",\"mode\":\""@, b) {
                Some((mode, c)) => match read_exactly(",\"ts\":"@, c) {
                    Some(rest) => Some((text, app, mode, rest)),
                    None => None,
                },
                None => None,
            },
            None => None,
        },
        None => None,
    }
}

proof fn lemma_hex(n: u32)
    requires
        n < 16,
    ensures
        hex_value(hex(n)) == Some(n as int),
        !control(hex(n)),
{
}

proof fn lemma_escaped_front(s: Seq<char>)
    requires
        s.len() > 0,
    ensures
        escaped(s) == escaped_char(s[0]) + escaped(s.drop_first()),
    decreases s.len(),
{
    if s.len() == 1 {
        assert(s.drop_last() =~= Seq::empty());
        assert(s.drop_first() =~= Seq::empty());
        assert(escaped(s) =~= escaped_char(s[0]) + escaped(s.drop_first()));
    } else {
        lemma_escaped_front(s.drop_last());
        assert(s.drop_last().drop_first() =~= s.drop_first().drop_last());
        assert(s.drop_first().last() == s.last());
        assert(escaped(s) =~= escaped_char(s[0]) + escaped(s.drop_first()));
    }
}

proof fn lemma_read_char(c: char, tail: Seq<char>)
    ensures
        read_string(escaped_char(c) + tail) == in_front(c, read_string(tail)),
{
    let e = escaped_char(c);
    let t = e + tail;
    assert(t.skip(e.len() as int) =~= tail);
    if c == '"' || c == '\\' || c == '\n' || c == '\r' || c == '\t' {
        assert(e.len() == 2);
        assert(t[0] == '\\' && t[1] == e[1]);
        assert(short_escape(t[1]) == Some(c));
    } else if control(c) {
        unicode::lemma_code(c);
        let n = c as u32;
        lemma_hex(n / 16);
        lemma_hex(n % 16);
        assert(e.len() == 6);
        assert(t[0] == '\\' && t[1] == 'u');
        let h = t.subrange(2, 6);
        assert(h =~= seq!['0', '0', hex(n / 16), hex(n % 16)]);
        assert(hex_number(h) == Some(n as int));
        assert((n as int) as char == c);
    } else {
        assert(t[0] == c);
    }
}

/// Reading an escaped text, up to a quote, gives back the text and what follows the quote.
pub proof fn law_escaped_text_reads_back(s: Seq<char>, rest: Seq<char>)
    ensures
        read_string(escaped(s) + seq!['"'] + rest) == Some((s, rest)),
    decreases s.len(),
{
    let t = escaped(s) + seq!['"'] + rest;
    if s.len() == 0 {
        assert(t[0] == '"');
        assert(t.skip(1) =~= rest);
        assert(s =~= Seq::empty());
    } else {
        let tail = escaped(s.drop_first()) + seq!['"'] + rest;
        lemma_escaped_front(s);
        law_escaped_text_reads_back(s.drop_first(), rest);
        lemma_read_char(s[0], tail);
        assert(t =~= escaped_char(s[0]) + tail);
        assert(seq![s[0]] + s.drop_first() =~= s);
    }
}

/// What was put in front is read off again.
pub proof fn lemma_read_exactly(start: Seq<char>, t: Seq<char>)
    ensures
        read_exactly(start, start + t) == Some(t),
{
    assert((start + t).take(start.len() as int) =~= start);
    assert((start + t).skip(start.len() as int) =~= t);
}

/// A listener that reads a message gets back exactly the text, the application and the mode
/// that were sent.
pub proof fn law_message_reads_back(
    text: Seq<char>,
    app: Seq<char>,
    mode: Seq<char>,
    ts: Seq<char>,
)
    ensures
        read_message(message(text, app, mode, ts)) == Some((text, app, mode, ts + "}\n"@)),
{
    reveal_strlit("\",\"app\":\"");
    reveal_strlit(",\"app\":\"");
    reveal_strlit("\",\"mode\":\"");
    reveal_strlit(",\"mode\":\"");
    reveal_strlit("\",\"ts\":");
    reveal_strlit(",\"ts\":");
    let q: Seq<char> = seq!['"'];
    let end = ts + "}\n"@;
    assert("\",\"app\":\""@ =~= q + ",\"app\":\""@);
    assert("\",\"mode\":\""@ =~= q + ",\"mode\":\""@);
    assert("\",\"ts\":"@ =~= q + ",\"ts\":"@);
    let c = ",\"ts\":"@ + end;
    let b = ",\"mode\":\""@ + (escaped(mode) + q + c);
    let a = ",\"app\":\""@ + (escaped(app) + q + b);
    let line = "{\"text\":\""@ + (escaped(text) + q + a);
    assert(message(text, app, mode, ts) =~= line);
    lemma_read_exactly("{\"text\":\""@, escaped(text) + q + a);
    law_escaped_text_reads_back(text, a);
    lemma_read_exactly(",\"app\":\""@, escaped(app) + q + b);
    law_escaped_text_reads_back(app, b);
    lemma_read_exactly(",\"mode\":\""@, escaped(mode) + q + c);
    law_escaped_text_reads_back(mode, c);
    lemma_read_exactly(",\"ts\":"@, end);
}

/// An escaped text holds no control character, so in particular no line break.
pub proof fn law_escaped_text_is_printable(s: Seq<char>, i: int)
    requires
        0 <= i < escaped(s).len(),
    ensures
        !control(escaped(s)[i]),
    decreases s.len(),
{
    let front = escaped(s.drop_last());
    if i < front.len() {
        law_escaped_text_is_printable(s.drop_last(), i);
        assert(escaped(s)[i] == front[i]);
    } else {
        assert(escaped(s)[i] == escaped_char(s.last())[i - front.len()]);
        if control(s.last()) {
            lemma_hex((s.last() as u32) / 16);
            lemma_hex((s.last() as u32) % 16);
        }
    }
}

spec fn printable(s: Seq<char>) -> bool {
    forall|i: int| 0 <= i < s.len() ==> !control(#[trigger] s[i])
}

proof fn lemma_printable_parts(a: Seq<char>, b: Seq<char>)
    requires
        printable(a),
        printable(b),
    ensures
        printable(a + b),
{
    assert forall|i: int| 0 <= i < (a + b).len() implies !control(#[trigger] (a + b)[i]) by {
        if i < a.len() {
            assert((a + b)[i] == a[i]);
        } else {
            assert((a + b)[i] == b[i - a.len()]);
        }
    }
}

proof fn lemma_escaped_printable(s: Seq<char>)
    ensures
        printable(escaped(s)),
{
    assert forall|i: int| 0 <= i < escaped(s).len() implies !control(
        #[trigger] escaped(s)[i],
    ) by {
        law_escaped_text_is_printable(s, i);
    }
}

/// A message is one line: its only line break is its last character, whatever was said and
/// whatever is focused.
pub proof fn law_message_is_one_line(
    text: Seq<char>,
    app: Seq<char>,
    mode: Seq<char>,
    ts: Seq<char>,
)
    requires
        forall|i: int| 0 <= i < ts.len() ==> !control(#[trigger] ts[i]),
    ensures
        ({
            let line = message(text, app, mode, ts);
            &&& line.len() > 0
            &&& line.last() == '\n'
            &&& forall|i: int| 0 <= i < line.len() - 1 ==> #[trigger] line[i] != '\n'
        }),
{
    reveal_strlit("{\"text\":\"");
    reveal_strlit("\",\"app\":\"");
    reveal_strlit("\",\"mode\":\"");
    reveal_strlit("\",\"ts\":");
    reveal_strlit("}\n");
    lemma_escaped_printable(text);
    lemma_escaped_printable(app);
    lemma_escaped_printable(mode);
    let l1 = "{\"text\":\""@ + escaped(text);
    let l2 = l1 + "\",\"app\":\""@;
    let l3 = l2 + escaped(app);
    let l4 = l3 + "\",\"mode\":\""@;
    let l5 = l4 + escaped(mode);
    let l6 = l5 + "\",\"ts\":"@;
    let l7 = l6 + ts;
    let close: Seq<char> = seq!['}'];
    lemma_printable_parts("{\"text\":\""@, escaped(text));
    lemma_printable_parts(l1, "\",\"app\":\""@);
    lemma_printable_parts(l2, escaped(app));
    lemma_printable_parts(l3, "\",\"mode\":\""@);
    lemma_printable_parts(l4, escaped(mode));
    lemma_printable_parts(l5, "\",\"ts\":"@);
    lemma_printable_parts(l6, ts);
    lemma_printable_parts(l7, close);
    let line = message(text, app, mode, ts);
    let body = l7 + close;
    assert(line =~= body.push('\n'));
    assert forall|i: int| 0 <= i < line.len() - 1 implies #[trigger] line[i] != '\n' by {
        assert(line[i] == body[i]);
        assert(!control(body[i]));
    }
}

/// Escaping goes character by character.
pub proof fn law_escaping_by_parts(a: Seq<char>, b: Seq<char>)
    ensures
        escaped(Seq::empty()) == Seq::<char>::empty(),
        escaped(a + b) == escaped(a) + escaped(b),
    decreases b.len(),
{
    if b.len() == 0 {
        assert(a + b =~= a);
        assert(escaped(a) + escaped(b) =~= escaped(a));
    } else {
        law_escaping_by_parts(a, b.drop_last());
        assert((a + b).drop_last() =~= a + b.drop_last());
        assert(escaped(a + b) =~= escaped(a) + escaped(b));
    }
}

/// A character stands for itself, unless it is a quote, a backslash or a control character; those
/// stand behind a backslash, by a letter where JSON has one in common use, else by their code in
/// four hexadecimal digits.
pub proof fn law_escapes(c: char)
    ensures
        c as int >= 32 && c != '"' && c != '\\' ==> escaped(seq![c]) == seq![c],
        c == '"' || c == '\\' ==> escaped(seq![c]) == seq!['\\', c],
        c == '\n' ==> escaped(seq![c]) == seq!['\\', 'n'],
        c == '\r' ==> escaped(seq![c]) == seq!['\\', 'r'],
        c == '\t' ==> escaped(seq![c]) == seq!['\\', 't'],
        (c as int) < 32 && c != '\n' && c != '\r' && c != '\t' ==> ({
            let e = escaped(seq![c]);
            let low = (c as int) % 16;
            &&& e.len() == 6
            &&& e.take(4) == seq!['\\', 'u', '0', '0']
            &&& e[4] == if c as int >= 16 {
                '1'
            } else {
                '0'
            }
            &&& low < 10 ==> e[5] as int == '0' as int + low
            &&& low >= 10 ==> e[5] as int == 'a' as int + low - 10
        }),
{
    let one = seq![c];
    assert(one.drop_last() =~= Seq::empty());
    assert(escaped(one.drop_last()) =~= Seq::empty());
    assert(escaped(one) =~= escaped_char(c));
    unicode::lemma_code(c);
    if (c as int) < 32 && c != '\n' && c != '\r' && c != '\t' {
        assert(escaped(one).take(4) =~= seq!['\\', 'u', '0', '0']);
    }
}

/// A message is the four fields in their order, the texts escaped between quotes, and a line
/// break.
pub proof fn law_message_shape(
    text: Seq<char>,
    app: Seq<char>,
    mode: Seq<char>,
    ts: Seq<char>,
)
    ensures
        ({
            let m = message(text, app, mode, ts);
            let a = "{\"text\":\""@.len() as int;
            let b = a + escaped(text).len();
            let c = b + "\",\"app\":\""@.len();
            let d = c + escaped(app).len();
            let e = d + "\",\"mode\":\""@.len();
            let f = e + escaped(mode).len();
            let g = f + "\",\"ts\":"@.len();
            &&& m.subrange(0, a) == "{\"text\":\""@
            &&& m.subrange(a, b) == escaped(text)
            &&& m.subrange(b, c) == "\",\"app\":\""@
            &&& m.subrange(c, d) == escaped(app)
            &&& m.subrange(d, e) == "\",\"mode\":\""@
            &&& m.subrange(e, f) == escaped(mode)
            &&& m.subrange(f, g) == "\",\"ts\":"@
            &&& m.skip(g) == ts + "}\n"@
        }),
{
    let m = message(text, app, mode, ts);
    let a = "{\"text\":\""@.len() as int;
    let b = a + escaped(text).len();
    let c = b + "\",\"app\":\""@.len();
    let d = c + escaped(app).len();
    let e = d + "\",\"mode\":\""@.len();
    let f = e + escaped(mode).len();
    let g = f + "\",\"ts\":"@.len();
    assert(m.subrange(0, a) =~= "{\"text\":\""@);
    assert(m.subrange(a, b) =~= escaped(text));
    assert(m.subrange(b, c) =~= "\",\"app\":\""@);
    assert(m.subrange(c, d) =~= escaped(app));
    assert(m.subrange(d, e) =~= "\",\"mode\":\""@);
    assert(m.subrange(e, f) =~= escaped(mode));
    assert(m.subrange(f, g) =~= "\",\"ts\":"@);
    assert(m.skip(g) =~= ts + "}\n"@);
}

} // verus!
