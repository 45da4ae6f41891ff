//! Text primitives for the JSON report: numbers in decimal and hexadecimal,
//! booleans, string escaping and comma-separated lists.

use vstd::prelude::*;

verus! {

/// Appends one character to a string; std documents `String::push` as
/// appending the given `char` to the end of the string.
pub assume_specification[ String::push ](s: &mut String, ch: char)
    ensures
        final(s)@ == old(s)@.push(ch),
;

/// The digit for `d` (below 16) in lower-case hexadecimal, which is also its
/// decimal digit when `d` is below 10.
pub open spec fn digit_char(d: nat) -> char {
    if d < 10 {
        (48 + d) as char
    } else {
        (87 + d) as char
    }
}

/// `n` in decimal, without leading zeros.
pub open spec fn dec_digits(n: nat) -> Seq<char>
    decreases n,
{
    if n < 10 {
        seq![digit_char(n)]
    } else {
        dec_digits(n / 10).push(digit_char(n % 10))
    }
}

/// `n` in lower-case hexadecimal, without leading zeros.
pub open spec fn hex_digits(n: nat) -> Seq<char>
    decreases n,
{
    if n < 16 {
        seq![digit_char(n)]
    } else {
        hex_digits(n / 16).push(digit_char(n % 16))
    }
}

/// `n` (below 0x10000) as exactly four lower-case hexadecimal digits.
pub open spec fn hex4(n: nat) -> Seq<char> {
    seq![
        digit_char((n / 4096) % 16),
        digit_char((n / 256) % 16),
        digit_char((n / 16) % 16),
        digit_char(n % 16),
    ]
}

/// A JSON boolean literal.
pub open spec fn bool_text(b: bool) -> Seq<char> {
    if b {
        "true"@
    } else {
        "false"@
    }
}

/// What one character becomes inside a JSON string literal.
pub open spec fn escape_char(c: char) -> Seq<char> {
    if c == '"' {
        seq!['\\', '"']
    } else if c == '\\' {
        seq!['\\', '\\']
    } else if c == '\n' {
        seq!['\\', 'n']
    } else if c == '\r' {
        seq!['\\', 'r']
    } else if c == '\t' {
        seq!['\\', 't']
    } else if (c as u32) < 0x20 {
        seq!['\\', 'u'] + hex4(c as u32 as nat)
    } else {
        seq![c]
    }
}

/// The body of a JSON string literal that stands for `s`.
pub open spec fn escaped(s: Seq<char>) -> Seq<char>
    decreases s.len(),
{
    if s.len() == 0 {
        Seq::empty()
    } else {
        escaped(s.drop_last()) + escape_char(s.last())
    }
}

/// The JSON string literal that stands for `s`.
pub open spec fn quoted(s: Seq<char>) -> Seq<char> {
    seq!['"'] + escaped(s) + seq!['"']
}

/// The items one after another with `sep` between each two neighbours.
pub open spec fn join(items: Seq<Seq<char>>, sep: Seq<char>) -> Seq<char>
    decreases items.len(),
{
    if items.len() == 0 {
        Seq::empty()
    } else if items.len() == 1 {
        items[0]
    } else {
        join(items.drop_last(), sep) + sep + items.last()
    }
}

/// A JSON array or object body: the items separated by commas.
pub open spec fn comma_list(items: Seq<Seq<char>>) -> Seq<char> {
    join(items, seq![','])
}

/// Each element of `v`, rendered by `f`, in order.
pub open spec fn items<A>(v: Seq<A>, f: spec_fn(A) -> Seq<char>) -> Seq<Seq<char>>
    decreases v.len(),
{
    if v.len() == 0 {
        Seq::empty()
    } else {
        items(v.drop_last(), f).push(f(v.last()))
    }
}

/// The rendered prefix grows by the next rendered element.
pub proof fn lemma_items_take<A>(v: Seq<A>, f: spec_fn(A) -> Seq<char>, i: int)
    requires
        0 <= i < v.len(),
    ensures
        items(v.take(i + 1), f) == items(v.take(i), f).push(f(v[i])),
{
    assert(v.take(i + 1).drop_last() =~= v.take(i));
}

/// Rendering the whole sequence through its full prefix.
pub proof fn lemma_items_full<A>(v: Seq<A>, f: spec_fn(A) -> Seq<char>)
    ensures
        items(v.take(v.len() as int), f) == items(v, f),
{
    assert(v.take(v.len() as int) =~= v);
}

/// A comma list grows by a comma (unless it was empty) and the next item.
pub proof fn lemma_comma_list_push(list: Seq<Seq<char>>, x: Seq<char>)
    ensures
        comma_list(list.push(x)) == comma_list(list) + (if list.len() == 0 {
            Seq::<char>::empty()
        } else {
            seq![',']
        }) + x,
{
    lemma_join_push(list, x, seq![',']);
}

/// Appending one item to a joined list adds the separator only when the list
/// was not empty.
pub proof fn lemma_join_push(items: Seq<Seq<char>>, x: Seq<char>, sep: Seq<char>)
    ensures
        join(items.push(x), sep) == join(items, sep) + (if items.len() == 0 {
            Seq::<char>::empty()
        } else {
            sep
        }) + x,
{
    assert(items.push(x).drop_last() =~= items);
    if items.len() == 0 {
        assert(join(items, sep) + Seq::<char>::empty() + x =~= x);
    }
}

/// The character for a digit below 16.
pub fn digit(d: u64) -> (c: char)
    requires
        d < 16,
    ensures
        c == digit_char(d as nat),
{
    if d < 10 {
        let b: u8 = (48 + d) as u8;
        b as char
    } else {
        let b: u8 = (87 + d) as u8;
        b as char
    }
}

/// Appends `n` in decimal.
pub fn push_dec(out: &mut String, n: u64)
    ensures
        final(out)@ == old(out)@ + dec_digits(n as nat),
    decreases n,
{
    if n >= 10 {
        push_dec(out, n / 10);
    }
    let ghost mid = out@;
    out.push(digit(n % 10));
    proof {
        if n >= 10 {
            assert(mid + seq![digit_char((n % 10) as nat)] =~= old(out)@ + dec_digits(
                (n / 10) as nat,
            ).push(digit_char((n % 10) as nat)));
        } else {
            assert(mid.push(digit_char(n as nat)) =~= old(out)@ + dec_digits(n as nat));
        }
    }
}

/// Appends `n` in lower-case hexadecimal.
pub fn push_hex(out: &mut String, n: u64)
    ensures
        final(out)@ == old(out)@ + hex_digits(n as nat),
    decreases n,
{
    if n >= 16 {
        push_hex(out, n / 16);
    }
    let ghost mid = out@;
    out.push(digit(n % 16));
    proof {
        if n >= 16 {
            assert(mid + seq![digit_char((n % 16) as nat)] =~= old(out)@ + hex_digits(
                (n / 16) as nat,
            ).push(digit_char((n % 16) as nat)));
        } else {
            assert(mid.push(digit_char(n as nat)) =~= old(out)@ + hex_digits(n as nat));
        }
    }
}

/// Appends a JSON boolean literal.
pub fn push_bool(out: &mut String, b: bool)
    ensures
        final(out)@ == old(out)@ + bool_text(b),
{
    if b {
        out.append("true");
    } else {
        out.append("false");
    }
}

/// Appends what one character becomes inside a JSON string literal.
fn push_escaped_char(out: &mut String, ch: char)
    ensures
        final(out)@ == old(out)@ + escape_char(ch),
{
    let ghost start = out@;
    if ch == '"' {
        out.push('\\');
        out.push('"');
    } else if ch == '\\' {
        out.push('\\');
        out.push('\\');
    } else if ch == '\n' {
        out.push('\\');
        out.push('n');
    } else if ch == '\r' {
        out.push('\\');
        out.push('r');
    } else if ch == '\t' {
        out.push('\\');
        out.push('t');
    } else if (ch as u32) < 0x20 {
        let v: u64 = ch as u32 as u64;
        out.push('\\');
        out.push('u');
        out.push(digit((v / 4096) % 16));
        out.push(digit((v / 256) % 16));
        out.push(digit((v / 16) % 16));
        out.push(digit(v % 16));
        assert(out@ =~= start + escape_char(ch));
    } else {
        out.push(ch);
    }
    assert(out@ =~= start + escape_char(ch));
}

/// Appends the escaped form of `s`.
pub fn push_escaped(out: &mut String, s: &str)
    ensures
        final(out)@ == old(out)@ + escaped(s@),
{
    let ghost start = out@;
    for ch in it: s.chars()
        invariant
            it.seq() == s@,
            out@ == start + escaped(s@.take(it.index() as int)),
    {
        let ghost i = it.index() as int;
        push_escaped_char(out, ch);
        proof {
            assert(s@.take(i + 1).drop_last() =~= s@.take(i));
            assert(s@.take(i + 1).last() == ch);
        }
    }
    assert(s@.take(s@.len() as int) =~= s@);
}

/// Escape a string for embedding in JSON.
pub fn escape(s: &str) -> (r: String)
    ensures
        r@ == escaped(s@),
{
    let mut out = String::new();
    push_escaped(&mut out, s);
    assert(out@ =~= escaped(s@));
    out
}

/// Appends the JSON string literal for `s`.
pub fn push_quoted(out: &mut String, s: &str)
    ensures
        final(out)@ == old(out)@ + quoted(s@),
{
    let ghost start = out@;
    out.push('"');
    push_escaped(out, s);
    out.push('"');
    assert(out@ =~= start + quoted(s@));
}

/// The value of a hexadecimal digit of either case.
pub open spec fn hex_value(c: char) -> Option<nat> {
    if '0' <= c && c <= '9' {
        Some((c as nat - 48) as nat)
    } else if 'a' <= c && c <= 'f' {
        Some((c as nat - 87) as nat)
    } else if 'A' <= c && c <= 'F' {
        Some((c as nat - 55) as nat)
    } else {
        None
    }
}

/// The code point written by four hexadecimal digits.
pub open spec fn hex4_value(a: char, b: char, c: char, d: char) -> Option<nat> {
    match (hex_value(a), hex_value(b), hex_value(c), hex_value(d)) {
        (Some(x), Some(y), Some(z), Some(w)) => Some(4096 * x + 256 * y + 16 * z + w),
        _ => None,
    }
}

/// Prepends a character to a decoded remainder.
pub open spec fn prepend(c: char, rest: Option<Seq<char>>) -> Option<Seq<char>> {
    match rest {
        Some(r) => Some(seq![c] + r),
        None => None,
    }
}

/// What the body of a JSON string literal stands for, as RFC 8259 reads it:
/// `None` where the body holds an unescaped quote or control character, or an
/// escape that the standard does not define. A `\u` escape of a surrogate is
/// read as `None` here, since it stands for a character only in a pair.
pub open spec fn unescaped(s: Seq<char>) -> Option<Seq<char>>
    decreases s.len(),
{
    if s.len() == 0 {
        Some(Seq::empty())
    } else if s[0] == '"' || (s[0] as u32) < 0x20 {
        None
    } else if s[0] != '\\' {
        prepend(s[0], unescaped(s.drop_first()))
    } else if s.len() < 2 {
        None
    } else {
        let e = s[1];
        if e == '"' || e == '\\' || e == '/' {
            prepend(e, unescaped(s.skip(2)))
        } else if e == 'n' {
            prepend('\n', unescaped(s.skip(2)))
        } else if e == 'r' {
            prepend('\r', unescaped(s.skip(2)))
        } else if e == 't' {
            prepend('\t', unescaped(s.skip(2)))
        } else if e == 'b' {
            prepend(8u8 as char, unescaped(s.skip(2)))
        } else if e == 'f' {
            prepend(12u8 as char, unescaped(s.skip(2)))
        } else if e == 'u' && s.len() >= 6 {
            match hex4_value(s[2], s[3], s[4], s[5]) {
                Some(v) => if v < 0xD800 || (0xE000 <= v && v <= 0xFFFF) {
                    prepend(v as char, unescaped(s.skip(6)))
                } else {
                    None
                },
                None => None,
            }
        } else {
            None
        }
    }
}

proof fn lemma_escaped_prepend(c: char, s: Seq<char>)
    ensures
        escaped(seq![c] + s) == escape_char(c) + escaped(s),
    decreases s.len(),
{
    if s.len() == 0 {
        assert(seq![c] + s =~= seq![c]);
        assert(seq![c].drop_last() =~= Seq::<char>::empty());
        assert(escaped(seq![c]) == escaped(seq![c].drop_last()) + escape_char(seq![c].last()));
        assert(escaped(s) =~= Seq::<char>::empty());
        assert(escape_char(c) + escaped(s) =~= escape_char(c));
        assert(Seq::<char>::empty() + escape_char(c) =~= escape_char(c));
    } else {
        lemma_escaped_prepend(c, s.drop_last());
        assert((seq![c] + s).drop_last() =~= seq![c] + s.drop_last());
        assert((seq![c] + s).last() == s.last());
        assert(escaped(seq![c] + s) == escaped((seq![c] + s).drop_last()) + escape_char(
            (seq![c] + s).last(),
        ));
        assert(escape_char(c) + escaped(s.drop_last()) + escape_char(s.last()) =~= escape_char(c)
            + (escaped(s.drop_last()) + escape_char(s.last())));
    }
}

proof fn lemma_digit_value(n: nat)
    requires
        n < 16,
    ensures
        hex_value(digit_char(n)) == Some(n),
{
}

proof fn lemma_escape_char_decodes(c: char, rest: Seq<char>)
    ensures
        unescaped(escape_char(c) + rest) == prepend(c, unescaped(rest)),
{
    let t = escape_char(c) + rest;
    if c == '"' || c == '\\' || c == '\n' || c == '\r' || c == '\t' {
        assert(t.skip(2) =~= rest);
    } else if (c as u32) < 0x20 {
        let v = c as u32 as nat;
        lemma_digit_value((v / 4096) % 16);
        lemma_digit_value((v / 256) % 16);
        lemma_digit_value((v / 16) % 16);
        lemma_digit_value(v % 16);
        assert(t.skip(6) =~= rest);
        assert(t[2] == digit_char((v / 4096) % 16));
        assert(t[5] == digit_char(v % 16));
        assert(4096 * ((v / 4096) % 16) + 256 * ((v / 256) % 16) + 16 * ((v / 16) % 16) + v % 16
            == v) by (nonlinear_arith)
            requires
                v < 0x20,
        ;
        assert((v as char) == c);
    } else {
        assert(t.drop_first() =~= rest);
    }
}

/// Law: escaping loses nothing: the escaped form of any string, read back as
/// the body of a JSON string literal, is that string.
pub proof fn escape_round_trips(s: Seq<char>)
    ensures
        unescaped(escaped(s)) == Some(s),
    decreases s.len(),
{
    if s.len() > 0 {
        escape_round_trips(s.drop_first());
        assert(s =~= seq![s[0]] + s.drop_first());
        lemma_escaped_prepend(s[0], s.drop_first());
        lemma_escape_char_decodes(s[0], escaped(s.drop_first()));
        assert(seq![s[0]] + s.drop_first() =~= s);
    }
}

} // verus!
