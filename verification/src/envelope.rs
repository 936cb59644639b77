use vstd::prelude::*;
use vstd::string::StrSliceExecFns;
use vstd::string::StringExecFns;

use crate::json::push_char;
use crate::json::Json;
use crate::json::JsonList;
use crate::json::JsonObj;
use crate::model::GenerationParameters;
use crate::model::Transcript;
use crate::model::Turn;

verus! {

// The provider's request envelope, character for character. `req_body`
// below is the one authoritative statement of the wire format; the
// executable builder is proved to emit exactly that text.

/// The numeral for one decimal digit.
pub open spec fn digit_char(d: int) -> char {
    if d == 1 {
        '1'
    } else if d == 2 {
        '2'
    } else if d == 3 {
        '3'
    } else if d == 4 {
        '4'
    } else if d == 5 {
        '5'
    } else if d == 6 {
        '6'
    } else if d == 7 {
        '7'
    } else if d == 8 {
        '8'
    } else if d == 9 {
        '9'
    } else {
        '0'
    }
}

/// The decimal numeral of `n`, most significant digit first.
pub open spec fn dec_digits(n: nat) -> Seq<char>
    decreases n,
{
    if n < 10 {
        seq![digit_char(n as int)]
    } else {
        dec_digits(n / 10) + seq![digit_char((n % 10) as int)]
    }
}

/// A count of thousandths, rendered as a decimal number with exactly
/// three fraction digits: 1000 reads `1.000`, -200 reads `-0.200`.
pub open spec fn render_milli(m: int) -> Seq<char> {
    let a = if m < 0 {
        -m
    } else {
        m
    };
    (if m < 0 {
        seq!['-']
    } else {
        Seq::<char>::empty()
    }) + dec_digits((a / 1000) as nat) + seq!['.'] + seq![
        digit_char((a / 100) % 10),
        digit_char((a / 10) % 10),
        digit_char(a % 10),
    ]
}

/// The numeral for one hexadecimal digit, lower case.
pub open spec fn hex_char(d: int) -> char {
    if d < 10 {
        digit_char(d)
    } else if d == 10 {
        'a'
    } else if d == 11 {
        'b'
    } else if d == 12 {
        'c'
    } else if d == 13 {
        'd'
    } else if d == 14 {
        'e'
    } else {
        'f'
    }
}

/// How one character stands inside a JSON string literal: the five short
/// escapes, a `\u00XX` escape for every other control character, and the
/// character itself otherwise.
pub open spec fn esc_char(c: char) -> Seq<char> {
    if c == '"' {
        seq!['\\', '"']
    } else if c == '\\' {
        seq!['\\', '\\']
    } else if c == '\n' {
        seq!['\\', 'n']
    } else if c == '\t' {
        seq!['\\', 't']
    } else if c == '\r' {
        seq!['\\', 'r']
    } else if (c as u32) < 0x20 {
        seq!['\\', 'u', '0', '0', hex_char(((c as u32) / 16) as int), hex_char(((c as u32) % 16) as int)]
    } else {
        seq![c]
    }
}

/// The body of a JSON string literal for `s`.
pub open spec fn esc(s: Seq<char>) -> Seq<char>
    decreases s.len(),
{
    if s.len() == 0 {
        Seq::empty()
    } else {
        esc(s.drop_last()) + esc_char(s.last())
    }
}

/// A JSON string literal for `s`, quotes included.
pub open spec fn quoted(s: Seq<char>) -> Seq<char> {
    seq!['"'] + esc(s) + seq!['"']
}

/// One turn as a `messages` element.
pub open spec fn turn_lit(t: Turn) -> Seq<char> {
    "{\"role\":"@ + quoted(t.role.spec_name()) + ",\"content\":"@ + quoted(t.content@) + seq!['}']
}

/// The elements of `messages`, in transcript order, comma separated.
pub open spec fn msgs_items(ts: Seq<Turn>) -> Seq<char>
    decreases ts.len(),
{
    if ts.len() == 0 {
        Seq::empty()
    } else if ts.len() == 1 {
        turn_lit(ts[0])
    } else {
        msgs_items(ts.drop_last()) + seq![','] + turn_lit(ts.last())
    }
}

/// The `messages` array.
pub open spec fn msgs_lit(ts: Seq<Turn>) -> Seq<char> {
    seq!['['] + msgs_items(ts) + seq![']']
}

/// The elements of the `stop` array.
pub open spec fn stop_items(ss: Seq<String>) -> Seq<char>
    decreases ss.len(),
{
    if ss.len() == 0 {
        Seq::empty()
    } else if ss.len() == 1 {
        quoted(ss[0]@)
    } else {
        stop_items(ss.drop_last()) + seq![','] + quoted(ss.last()@)
    }
}

/// The `stop` field: `null`, or an array of strings.
pub open spec fn stop_lit(stop: Option<Vec<String>>) -> Seq<char> {
    match stop {
        None => "null"@,
        Some(v) => seq!['['] + stop_items(v@) + seq![']'],
    }
}

/// The members of the `logit_bias` object, in insertion order.
pub open spec fn bias_items(bs: Seq<(String, i64)>) -> Seq<char>
    decreases bs.len(),
{
    if bs.len() == 0 {
        Seq::empty()
    } else if bs.len() == 1 {
        quoted(bs[0].0@) + seq![':'] + render_milli(bs[0].1 as int)
    } else {
        bias_items(bs.drop_last()) + seq![','] + quoted(bs.last().0@) + seq![':'] + render_milli(
            bs.last().1 as int,
        )
    }
}

/// The `logit_bias` object.
pub open spec fn bias_lit(bs: Seq<(String, i64)>) -> Seq<char> {
    seq!['{'] + bias_items(bs) + seq!['}']
}

/// The whole request envelope: the union of the parameters `p` and a
/// snapshot `ts` of the transcript at submission time, serialized as the
/// exact wire payload. Every field the provider requires stands here, in
/// a fixed order, with the turns exactly in transcript order.
pub open spec fn req_body(p: GenerationParameters, ts: Seq<Turn>) -> Seq<char> {
    "{\"model\":"@ + quoted(p.model@) + ",\"messages\":"@ + msgs_lit(ts) + ",\"temperature\":"@
        + render_milli(p.temperature_milli as int) + ",\"top_p\":"@ + render_milli(
        p.top_p_milli as int,
    ) + ",\"n\":"@ + dec_digits(p.candidate_count as nat) + ",\"stream\":"@ + (if p.stream {
        "true"@
    } else {
        "false"@
    }) + ",\"stop\":"@ + stop_lit(p.stop_sequences) + ",\"max_tokens\":"@ + dec_digits(
        p.max_output_tokens as nat,
    ) + ",\"presence_penalty\":"@ + render_milli(p.presence_penalty_milli as int)
        + ",\"frequency_penalty\":"@ + render_milli(p.frequency_penalty_milli as int)
        + ",\"logit_bias\":"@ + bias_lit(p.logit_bias@) + seq!['}']
}

/// A hexadecimal numeral carries its digit's value.
proof fn lemma_hex_char_val(d: int)
    requires
        0 <= d < 16,
    ensures
        crate::json::is_hex(hex_char(d)),
        crate::json::hex_val(hex_char(d)) == d,
{
}

/// An escaped string body reads back as exactly the content it was built
/// from: what the envelope writes for a content string, the document
/// reader's string relation accepts, and with no other meaning.
pub proof fn lemma_esc_encodes(s: Seq<char>)
    ensures
        crate::json::str_encodes(esc(s), s),
    decreases s.len(),
{
    if s.len() == 0 {
        assert(esc(s) =~= Seq::<char>::empty());
    } else {
        lemma_esc_encodes(s.drop_last());
        lemma_str_encodes_push(esc(s.drop_last()), s.drop_last(), s.last());
        assert(s.drop_last().push(s.last()) =~= s);
    }
}

/// Extending an encoded body with the escape of one more character
/// extends its reading by that character.
proof fn lemma_str_encodes_push(text: Seq<char>, content: Seq<char>, c: char)
    requires
        crate::json::str_encodes(text, content),
    ensures
        crate::json::str_encodes(text + esc_char(c), content.push(c)),
    decreases text.len(),
{
    reveal_with_fuel(crate::json::str_encodes, 3);
    let t2 = text + esc_char(c);
    let c2 = content.push(c);
    if text.len() == 0 {
        assert(crate::json::str_encodes(Seq::<char>::empty(), Seq::<char>::empty()));
        assert(t2 =~= esc_char(c));
        assert(c2 =~= seq![c]);
        if c == '"' || c == '\\' || c == '\n' || c == '\t' || c == '\r' {
            assert(t2.len() == 2 && t2[0] == '\\');
            assert(t2.skip(2) =~= Seq::<char>::empty());
            assert(c2.skip(1) =~= Seq::<char>::empty());
        } else if (c as u32) < 0x20 {
            lemma_hex_char_val(((c as u32) / 16) as int);
            lemma_hex_char_val(((c as u32) % 16) as int);
            assert(t2.len() == 6 && t2[0] == '\\' && t2[1] == 'u' && t2[2] == '0' && t2[3] == '0');
            assert(crate::json::hex4(t2[2], t2[3], t2[4], t2[5]) == c as u32);
            assert(t2.skip(6) =~= Seq::<char>::empty());
            assert(c2.skip(1) =~= Seq::<char>::empty());
        } else {
            assert(t2.len() == 1 && t2[0] == c);
            assert(t2.skip(1) =~= Seq::<char>::empty());
            assert(c2.skip(1) =~= Seq::<char>::empty());
        }
    } else if text[0] == '\\' {
        if text[1] == 'u' {
            lemma_str_encodes_push(text.skip(6), content.skip(1), c);
            assert(t2[0] == '\\' && t2[1] == 'u');
            assert(t2[2] == text[2] && t2[3] == text[3] && t2[4] == text[4] && t2[5] == text[5]);
            assert(t2.skip(6) =~= text.skip(6) + esc_char(c));
            assert(c2.skip(1) =~= content.skip(1).push(c));
            assert(crate::json::str_encodes(t2.skip(6), c2.skip(1)));
        } else {
            lemma_str_encodes_push(text.skip(2), content.skip(1), c);
            assert(t2[0] == '\\' && t2[1] == text[1]);
            assert(t2.skip(2) =~= text.skip(2) + esc_char(c));
            assert(c2.skip(1) =~= content.skip(1).push(c));
            assert(crate::json::str_encodes(t2.skip(2), c2.skip(1)));
        }
    } else {
        lemma_str_encodes_push(text.skip(1), content.skip(1), c);
        assert(t2[0] == text[0]);
        assert(t2.skip(1) =~= text.skip(1) + esc_char(c));
        assert(c2.skip(1) =~= content.skip(1).push(c));
        assert(crate::json::str_encodes(t2.skip(1), c2.skip(1)));
    }
}

/// Appending a turn only extends the serialized `messages` items on the
/// right: the envelope lists turns exactly in transcript order, and a
/// later `append` never moves or changes an earlier turn's text.
pub proof fn lemma_msgs_items_append(ts: Seq<Turn>, t: Turn)
    ensures
        msgs_items(ts.push(t)) == if ts.len() == 0 {
            turn_lit(t)
        } else {
            msgs_items(ts) + seq![','] + turn_lit(t)
        },
{
    assert(ts.push(t).drop_last() =~= ts);
    assert(ts.push(t).last() == t);
    if ts.len() == 0 {
        assert(ts.push(t)[0] == t);
    }
}

fn digit_char_x(d: u64) -> (r: char)
    requires
        d < 10,
    ensures
        r == digit_char(d as int),
{
    if d == 1 {
        '1'
    } else if d == 2 {
        '2'
    } else if d == 3 {
        '3'
    } else if d == 4 {
        '4'
    } else if d == 5 {
        '5'
    } else if d == 6 {
        '6'
    } else if d == 7 {
        '7'
    } else if d == 8 {
        '8'
    } else if d == 9 {
        '9'
    } else {
        '0'
    }
}

fn hex_char_x(d: u32) -> (r: char)
    requires
        d < 16,
    ensures
        r == hex_char(d as int),
{
    if d < 10 {
        digit_char_x(d as u64)
    } else if d == 10 {
        'a'
    } else if d == 11 {
        'b'
    } else if d == 12 {
        'c'
    } else if d == 13 {
        'd'
    } else if d == 14 {
        'e'
    } else {
        'f'
    }
}

/// Appends the decimal numeral of `n`.
fn write_u64(n: u64, out: &mut String)
    ensures
        final(out)@ == old(out)@ + dec_digits(n as nat),
    decreases n,
{
    if n < 10 {
        push_char(out, digit_char_x(n));
        proof {
            assert(old(out)@.push(digit_char(n as int)) =~= old(out)@ + dec_digits(n as nat));
        }
    } else {
        write_u64(n / 10, out);
        push_char(out, digit_char_x(n % 10));
        proof {
            assert(old(out)@ + dec_digits((n / 10) as nat) + seq![digit_char((n % 10) as int)]
                =~= old(out)@ + dec_digits(n as nat));
            assert((old(out)@ + dec_digits((n / 10) as nat)).push(digit_char((n % 10) as int))
                =~= old(out)@ + dec_digits((n / 10) as nat) + seq![digit_char((n % 10) as int)]);
        }
    }
}

/// Appends a count of thousandths as its decimal rendering.
fn write_milli(m: i64, out: &mut String)
    requires
        m > i64::MIN,
    ensures
        final(out)@ == old(out)@ + render_milli(m as int),
{
    if m < 0 {
        push_char(out, '-');
    }
    let a: i64 = if m < 0 {
        -m
    } else {
        m
    };
    write_u64((a / 1000) as u64, out);
    push_char(out, '.');
    push_char(out, digit_char_x(((a / 100) % 10) as u64));
    push_char(out, digit_char_x(((a / 10) % 10) as u64));
    push_char(out, digit_char_x((a % 10) as u64));
    proof {
        assert(final(out)@ =~= old(out)@ + render_milli(m as int));
    }
}

/// Appends the escaped body of a string literal for `s`.
fn write_escaped(s: &str, out: &mut String)
    ensures
        final(out)@ == old(out)@ + esc(s@),
{
    let n = s.unicode_len();
    let mut i: usize = 0;
    proof {
        assert(s@.subrange(0, 0) =~= Seq::<char>::empty());
        assert(out@ =~= old(out)@ + esc(s@.subrange(0, 0)));
    }
    while i < n
        invariant
            i <= n,
            n == s@.len(),
            out@ == old(out)@ + esc(s@.subrange(0, i as int)),
        decreases n - i,
    {
        let c = s.get_char(i);
        if c == '"' {
            push_char(out, '\\');
            push_char(out, '"');
        } else if c == '\\' {
            push_char(out, '\\');
            push_char(out, '\\');
        } else if c == '\n' {
            push_char(out, '\\');
            push_char(out, 'n');
        } else if c == '\t' {
            push_char(out, '\\');
            push_char(out, 't');
        } else if c == '\r' {
            push_char(out, '\\');
            push_char(out, 'r');
        } else if (c as u32) < 0x20 {
            push_char(out, '\\');
            push_char(out, 'u');
            push_char(out, '0');
            push_char(out, '0');
            push_char(out, hex_char_x((c as u32) / 16));
            push_char(out, hex_char_x((c as u32) % 16));
        } else {
            push_char(out, c);
        }
        proof {
            assert(s@.subrange(0, i + 1).drop_last() =~= s@.subrange(0, i as int));
            assert(s@.subrange(0, i + 1).last() == c);
            assert(out@ =~= old(out)@ + esc(s@.subrange(0, i + 1)));
        }
        i = i + 1;
    }
    proof {
        assert(s@.subrange(0, n as int) =~= s@);
    }
}

/// Appends a whole string literal for `s`, quotes included.
fn write_quoted(s: &str, out: &mut String)
    ensures
        final(out)@ == old(out)@ + quoted(s@),
{
    push_char(out, '"');
    write_escaped(s, out);
    push_char(out, '"');
    proof {
        assert(final(out)@ =~= old(out)@ + quoted(s@));
    }
}

/// Appends one turn as a `messages` element.
fn write_turn(t: &Turn, out: &mut String)
    ensures
        final(out)@ == old(out)@ + turn_lit(*t),
{
    out.append("{\"role\":");
    write_quoted(t.role.name(), out);
    out.append(",\"content\":");
    write_quoted(t.content.as_str(), out);
    push_char(out, '}');
    proof {
        assert(final(out)@ =~= old(out)@ + turn_lit(*t));
    }
}

/// Appends the `messages` array for the turns of `ts`, in order.
fn write_msgs(ts: &Vec<Turn>, out: &mut String)
    ensures
        final(out)@ == old(out)@ + msgs_lit(ts@),
{
    push_char(out, '[');
    let mut i: usize = 0;
    proof {
        assert(msgs_items(ts@.subrange(0, 0)) =~= Seq::<char>::empty());
        assert(out@ =~= old(out)@ + seq!['['] + msgs_items(ts@.subrange(0, 0)));
    }
    while i < ts.len()
        invariant
            i <= ts@.len(),
            out@ == old(out)@ + seq!['['] + msgs_items(ts@.subrange(0, i as int)),
        decreases ts@.len() - i,
    {
        if i > 0 {
            push_char(out, ',');
        }
        write_turn(&ts[i], out);
        proof {
            assert(ts@.subrange(0, i + 1).drop_last() =~= ts@.subrange(0, i as int));
            assert(ts@.subrange(0, i + 1).last() == ts@[i as int]);
            if i == 0 {
                assert(msgs_items(ts@.subrange(0, 1)) == turn_lit(ts@[0]));
            }
            assert(out@ =~= old(out)@ + seq!['['] + msgs_items(ts@.subrange(0, i + 1)));
        }
        i = i + 1;
    }
    push_char(out, ']');
    proof {
        assert(ts@.subrange(0, ts@.len() as int) =~= ts@);
        assert(final(out)@ =~= old(out)@ + msgs_lit(ts@));
    }
}

/// Appends the `stop` field.
fn write_stop(stop: &Option<Vec<String>>, out: &mut String)
    ensures
        final(out)@ == old(out)@ + stop_lit(*stop),
{
    match stop {
        None => {
            out.append("null");
        },
        Some(v) => {
            push_char(out, '[');
            let mut i: usize = 0;
            proof {
                assert(stop_items(v@.subrange(0, 0)) =~= Seq::<char>::empty());
                assert(out@ =~= old(out)@ + seq!['['] + stop_items(v@.subrange(0, 0)));
            }
            while i < v.len()
                invariant
                    i <= v@.len(),
                    out@ == old(out)@ + seq!['['] + stop_items(v@.subrange(0, i as int)),
                decreases v@.len() - i,
            {
                if i > 0 {
                    push_char(out, ',');
                }
                write_quoted(v[i].as_str(), out);
                proof {
                    assert(v@.subrange(0, i + 1).drop_last() =~= v@.subrange(0, i as int));
                    assert(v@.subrange(0, i + 1).last() == v@[i as int]);
                    if i == 0 {
                        assert(stop_items(v@.subrange(0, 1)) == quoted(v@[0]@));
                    }
                    assert(out@ =~= old(out)@ + seq!['['] + stop_items(v@.subrange(0, i + 1)));
                }
                i = i + 1;
            }
            push_char(out, ']');
            proof {
                assert(v@.subrange(0, v@.len() as int) =~= v@);
                assert(final(out)@ =~= old(out)@ + stop_lit(*stop));
            }
        },
    }
}

/// Appends the `logit_bias` object, keys in their stored order.
fn write_bias(bs: &Vec<(String, i64)>, out: &mut String)
    requires
        forall|k: int| 0 <= k < bs@.len() ==> #[trigger] bs@[k].1 > i64::MIN,
    ensures
        final(out)@ == old(out)@ + bias_lit(bs@),
{
    push_char(out, '{');
    let mut i: usize = 0;
    proof {
        assert(bias_items(bs@.subrange(0, 0)) =~= Seq::<char>::empty());
        assert(out@ =~= old(out)@ + seq!['{'] + bias_items(bs@.subrange(0, 0)));
    }
    while i < bs.len()
        invariant
            i <= bs@.len(),
            forall|k: int| 0 <= k < bs@.len() ==> #[trigger] bs@[k].1 > i64::MIN,
            out@ == old(out)@ + seq!['{'] + bias_items(bs@.subrange(0, i as int)),
        decreases bs@.len() - i,
    {
        if i > 0 {
            push_char(out, ',');
        }
        write_quoted(bs[i].0.as_str(), out);
        push_char(out, ':');
        write_milli(bs[i].1, out);
        proof {
            assert(bs@.subrange(0, i + 1).drop_last() =~= bs@.subrange(0, i as int));
            assert(bs@.subrange(0, i + 1).last() == bs@[i as int]);
            if i == 0 {
                assert(bias_items(bs@.subrange(0, 1)) == quoted(bs@[0].0@) + seq![':']
                    + render_milli(bs@[0].1 as int));
            }
            assert(out@ =~= old(out)@ + seq!['{'] + bias_items(bs@.subrange(0, i + 1)));
        }
        i = i + 1;
    }
    push_char(out, '}');
    proof {
        assert(bs@.subrange(0, bs@.len() as int) =~= bs@);
        assert(final(out)@ =~= old(out)@ + bias_lit(bs@));
    }
}

/// The wire envelope for one request: exactly `req_body`, so every field
/// of `p` and every turn of `t`, in order.
pub fn build_request_body(p: &GenerationParameters, t: &Transcript) -> (r: String)
    requires
        p.wf(),
    ensures
        r@ == req_body(*p, t@),
{
    let mut out = String::new();
    out.append("{\"model\":");
    write_quoted(p.model.as_str(), &mut out);
    out.append(",\"messages\":");
    write_msgs(&t.turns, &mut out);
    out.append(",\"temperature\":");
    write_milli(p.temperature_milli, &mut out);
    out.append(",\"top_p\":");
    write_milli(p.top_p_milli, &mut out);
    out.append(",\"n\":");
    write_u64(p.candidate_count as u64, &mut out);
    out.append(",\"stream\":");
    if p.stream {
        out.append("true");
    } else {
        out.append("false");
    }
    out.append(",\"stop\":");
    write_stop(&p.stop_sequences, &mut out);
    out.append(",\"max_tokens\":");
    write_u64(p.max_output_tokens as u64, &mut out);
    out.append(",\"presence_penalty\":");
    write_milli(p.presence_penalty_milli, &mut out);
    out.append(",\"frequency_penalty\":");
    write_milli(p.frequency_penalty_milli, &mut out);
    out.append(",\"logit_bias\":");
    write_bias(&p.logit_bias, &mut out);
    push_char(&mut out, '}');
    proof {
        assert(out@ =~= req_body(*p, t@));
    }
    out
}

// Reading an envelope back. The decoder below extracts a candidate value
// from the parsed JSON tree; `parse_request` then re-serializes the
// candidate and accepts it only if that text is the input itself. Its
// contract therefore needs nothing from the decoder: whatever comes out
// re-encodes to the given text.

/// Reads a decimal count of thousandths: an optional sign, digits, and at
/// most three fraction digits.
fn parse_milli(raw: &str) -> Option<i64> {
    let n = raw.unicode_len();
    let mut i: usize = 0;
    let mut neg = false;
    if n == 0 {
        return None;
    }
    if raw.get_char(0) == '-' {
        neg = true;
        i = 1;
    }
    let mut ip: i64 = 0;
    let mut any = false;
    while i < n
        invariant
            i <= n,
            n == raw@.len(),
            ip >= 0,
        decreases n - i,
    {
        let c = raw.get_char(i);
        if '0' <= c && c <= '9' {
            let d: i64 = ((c as u32) - ('0' as u32)) as i64;
            ip = match ip.checked_mul(10) {
                None => {
                    return None;
                },
                Some(x) => match x.checked_add(d) {
                    None => {
                        return None;
                    },
                    Some(y) => y,
                },
            };
            any = true;
            i = i + 1;
        } else {
            break ;
        }
    }
    if !any {
        return None;
    }
    let mut frac: i64 = 0;
    if i < n {
        if raw.get_char(i) != '.' {
            return None;
        }
        i = i + 1;
        let mut scale: i64 = 100;
        let mut fdigits: usize = 0;
        while i < n
            invariant
                i <= n,
                n == raw@.len(),
                fdigits <= i,
                frac >= 0,
                scale == 100 || scale == 10 || scale == 1 || scale == 0,
                scale == 100 ==> frac == 0,
                scale == 10 ==> frac <= 900,
                scale == 1 ==> frac <= 990,
                scale == 0 ==> frac <= 999,
            decreases n - i,
        {
            let c = raw.get_char(i);
            if !('0' <= c && c <= '9') {
                return None;
            }
            if scale == 0 {
                // more precision than a thousandth
                return None;
            }
            let d: i64 = ((c as u32) - ('0' as u32)) as i64;
            frac = frac + scale * d;
            scale = scale / 10;
            fdigits = fdigits + 1;
            i = i + 1;
        }
        if fdigits == 0 {
            return None;
        }
    }
    let val: i64 = match ip.checked_mul(1000) {
        None => {
            return None;
        },
        Some(x) => match x.checked_add(frac) {
            None => {
                return None;
            },
            Some(y) => y,
        },
    };
    if neg {
        Some(-val)
    } else {
        Some(val)
    }
}

/// Reads a plain decimal integer into a `u32`.
fn parse_u32_dec(raw: &str) -> Option<u32> {
    let n = raw.unicode_len();
    if n == 0 {
        return None;
    }
    let mut i: usize = 0;
    let mut acc: u32 = 0;
    while i < n
        invariant
            i <= n,
            n == raw@.len(),
        decreases n - i,
    {
        let c = raw.get_char(i);
        if !('0' <= c && c <= '9') {
            return None;
        }
        let d: u32 = (c as u32) - ('0' as u32);
        acc = match acc.checked_mul(10) {
            None => {
                return None;
            },
            Some(x) => match x.checked_add(d) {
                None => {
                    return None;
                },
                Some(y) => y,
            },
        };
        i = i + 1;
    }
    Some(acc)
}

fn decode_turns(l: &JsonList) -> Option<Vec<Turn>>
    decreases *l,
{
    match l {
        JsonList::Nil => Some(Vec::new()),
        JsonList::Cons(hd, tl) => {
            let t = match crate::client::decode_turn(hd) {
                Some(t) => t,
                None => {
                    return None;
                },
            };
            match decode_turns(tl) {
                None => None,
                Some(mut rest) => {
                    rest.insert(0, t);
                    Some(rest)
                },
            }
        },
    }
}

fn decode_strings(l: &JsonList) -> Option<Vec<String>>
    decreases *l,
{
    match l {
        JsonList::Nil => Some(Vec::new()),
        JsonList::Cons(hd, tl) => {
            let s = match &**hd {
                Json::Str(s) => s.clone(),
                _ => {
                    return None;
                },
            };
            match decode_strings(tl) {
                None => None,
                Some(mut rest) => {
                    rest.insert(0, s);
                    Some(rest)
                },
            }
        },
    }
}

fn decode_bias(o: &JsonObj) -> Option<Vec<(String, i64)>>
    decreases *o,
{
    match o {
        JsonObj::Nil => Some(Vec::new()),
        JsonObj::Cons(key, val, rest) => {
            let v = match &**val {
                Json::Num(raw) => match parse_milli(raw.as_str()) {
                    Some(v) => v,
                    None => {
                        return None;
                    },
                },
                _ => {
                    return None;
                },
            };
            match decode_bias(rest) {
                None => None,
                Some(mut out) => {
                    out.insert(0, (key.clone(), v));
                    Some(out)
                },
            }
        },
    }
}

fn field_milli(o: &JsonObj, key: &str) -> Option<i64> {
    match crate::json::get_field(o, key) {
        Some(Json::Num(raw)) => parse_milli(raw.as_str()),
        _ => None,
    }
}

fn field_u32(o: &JsonObj, key: &str) -> Option<u32> {
    match crate::json::get_field(o, key) {
        Some(Json::Num(raw)) => parse_u32_dec(raw.as_str()),
        _ => None,
    }
}

fn decode_request(j: &Json) -> Option<(GenerationParameters, Transcript)> {
    let o = match j {
        Json::Obj(o) => o,
        _ => {
            return None;
        },
    };
    let model = match crate::json::get_field(o, "model") {
        Some(Json::Str(s)) => s.clone(),
        _ => {
            return None;
        },
    };
    let turns = match crate::json::get_field(o, "messages") {
        Some(Json::Arr(l)) => match decode_turns(l) {
            Some(ts) => ts,
            None => {
                return None;
            },
        },
        _ => {
            return None;
        },
    };
    let temperature_milli = match field_milli(o, "temperature") {
        Some(v) => v,
        None => {
            return None;
        },
    };
    let top_p_milli = match field_milli(o, "top_p") {
        Some(v) => v,
        None => {
            return None;
        },
    };
    let candidate_count = match field_u32(o, "n") {
        Some(v) => v,
        None => {
            return None;
        },
    };
    let stream = match crate::json::get_field(o, "stream") {
        Some(Json::Bool(b)) => *b,
        _ => {
            return None;
        },
    };
    let stop_sequences = match crate::json::get_field(o, "stop") {
        Some(Json::Null) => None,
        Some(Json::Arr(l)) => match decode_strings(l) {
            Some(v) => Some(v),
            None => {
                return None;
            },
        },
        _ => {
            return None;
        },
    };
    let max_output_tokens = match field_u32(o, "max_tokens") {
        Some(v) => v,
        None => {
            return None;
        },
    };
    let presence_penalty_milli = match field_milli(o, "presence_penalty") {
        Some(v) => v,
        None => {
            return None;
        },
    };
    let frequency_penalty_milli = match field_milli(o, "frequency_penalty") {
        Some(v) => v,
        None => {
            return None;
        },
    };
    let logit_bias = match crate::json::get_field(o, "logit_bias") {
        Some(Json::Obj(bo)) => match decode_bias(bo) {
            Some(v) => v,
            None => {
                return None;
            },
        },
        _ => {
            return None;
        },
    };
    let p = GenerationParameters {
        model,
        temperature_milli,
        top_p_milli,
        candidate_count,
        stream,
        stop_sequences,
        max_output_tokens,
        presence_penalty_milli,
        frequency_penalty_milli,
        logit_bias,
    };
    Some((p, Transcript { turns }))
}

/// Whether `p` lies inside the provider's documented ranges.
pub fn params_wf_check(p: &GenerationParameters) -> (r: bool)
    ensures
        r == p.wf(),
{
    let scalars_ok = 0 <= p.temperature_milli && p.temperature_milli <= 2000 && 0 <= p.top_p_milli
        && p.top_p_milli <= 1000 && p.candidate_count >= 1 && !p.stream && p.max_output_tokens >= 1
        && -2000 <= p.presence_penalty_milli && p.presence_penalty_milli <= 2000
        && -2000 <= p.frequency_penalty_milli && p.frequency_penalty_milli <= 2000;
    if !scalars_ok {
        return false;
    }
    let mut i: usize = 0;
    while i < p.logit_bias.len()
        invariant
            i <= p.logit_bias@.len(),
            forall|k: int| 0 <= k < i ==> #[trigger] p.logit_bias@[k].1 > i64::MIN,
            forall|k1: int, k2: int|
                0 <= k1 < k2 < i ==> #[trigger] p.logit_bias@[k1].0@ != #[trigger] p.logit_bias@[k2].0@,
        decreases p.logit_bias@.len() - i,
    {
        if p.logit_bias[i].1 == i64::MIN {
            return false;
        }
        let mut j: usize = 0;
        while j < i
            invariant
                j <= i < p.logit_bias@.len(),
                forall|k1: int| 0 <= k1 < j ==> #[trigger] p.logit_bias@[k1].0@ != p.logit_bias@[i as int].0@,
            decreases i - j,
        {
            if p.logit_bias[j].0 == p.logit_bias[i].0 {
                return false;
            }
            j = j + 1;
        }
        i = i + 1;
    }
    true
}

/// Reads a request envelope back into its parameters and transcript.
///
/// Whatever this returns re-encodes, character for character, to the given
/// text: deserializing and then serializing is the identity on envelope
/// texts. The check is by construction: a candidate is accepted only after
/// its own serialization has been compared with the input.
pub fn parse_request(s: &str) -> (r: Option<(GenerationParameters, Transcript)>)
    ensures
        r matches Some((p, t)) ==> p.wf() && s@ == req_body(p, t@),
{
    let j = match crate::json::parse_document(s) {
        Some(j) => j,
        None => {
            return None;
        },
    };
    let (p, t) = match decode_request(&j) {
        Some(pt) => pt,
        None => {
            return None;
        },
    };
    if !params_wf_check(&p) {
        return None;
    }
    let rebuilt = build_request_body(&p, &t);
    let orig: String = s.to_owned();
    if rebuilt == orig {
        Some((p, t))
    } else {
        None
    }
}

} // verus!
