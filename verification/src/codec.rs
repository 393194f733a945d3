//! The textual document format: rendering a structured value to text and
//! parsing it back.
//!
//! The renderer emits a compact single-line document: objects and arrays
//! without padding, strings with `"` and `\` escaped and control characters
//! as `\u00XX`, integers in decimal. The parser accepts what the renderer
//! emits, plus the conventional short escapes; it consumes the whole input
//! or fails. Rendering then parsing gives back the same value, which is
//! what makes the persisted document trustworthy.

use vstd::prelude::*;

use crate::ext::push_char;
use crate::strutil::str_chars;
use crate::value::{ConfigValue, Jv, arr_dv, obj_dv};

verus! {

/// The decimal digit character for `d`.
pub open spec fn digit_char(d: int) -> char {
    (48 + d) as char
}

/// The numeric value of a decimal digit character.
pub open spec fn digit_val(c: char) -> int {
    c as int - 48
}

/// Is `c` a decimal digit?
pub open spec fn is_digit(c: char) -> bool {
    '0' <= c && c <= '9'
}

/// The decimal digits of `n`, most significant first.
pub open spec fn dec_digits(n: nat) -> Seq<char>
    decreases n,
{
    if n < 10 {
        seq![digit_char(n as int)]
    } else {
        dec_digits(n / 10).push(digit_char((n % 10) as int))
    }
}

/// The decimal rendering of an integer.
pub open spec fn render_int(i: int) -> Seq<char> {
    if i < 0 {
        seq!['-'] + dec_digits((-i) as nat)
    } else {
        dec_digits(i as nat)
    }
}

/// The lower-case hex digit character for `d`.
pub open spec fn hex_char(d: int) -> char {
    if d < 10 {
        digit_char(d)
    } else {
        (87 + d) as char
    }
}

/// The numeric value of a hex digit character, or an out-of-range value
/// for other characters.
pub open spec fn hex_val(c: char) -> int {
    if '0' <= c && c <= '9' {
        c as int - 48
    } else if 'a' <= c && c <= 'f' {
        c as int - 87
    } else if 'A' <= c && c <= 'F' {
        c as int - 55
    } else {
        16
    }
}

/// The escaped form of one string character.
pub open spec fn escape_char(c: char) -> Seq<char> {
    if c == '"' {
        seq!['\\', '"']
    } else if c == '\\' {
        seq!['\\', '\\']
    } else if (c as int) < 32 {
        seq!['\\', 'u', '0', '0', hex_char((c as int) / 16), hex_char((c as int) % 16)]
    } else {
        seq![c]
    }
}

/// The escaped form of a string body.
pub open spec fn escape_str(s: Seq<char>) -> Seq<char>
    decreases s.len(),
{
    if s.len() == 0 {
        Seq::empty()
    } else {
        escape_char(s[0]) + escape_str(s.drop_first())
    }
}

/// The rendering of a structured value.
pub open spec fn render_jv(j: Jv) -> Seq<char>
    decreases j,
{
    match j {
        Jv::Null => seq!['n', 'u', 'l', 'l'],
        Jv::Bool(b) => if b {
            seq!['t', 'r', 'u', 'e']
        } else {
            seq!['f', 'a', 'l', 's', 'e']
        },
        Jv::Int(i) => render_int(i),
        Jv::Str(s) => seq!['"'] + escape_str(s) + seq!['"'],
        Jv::Arr(es) => seq!['['] + render_elems(es) + seq![']'],
        Jv::Obj(ms) => seq!['{'] + render_members(ms) + seq!['}'],
    }
}

/// The rendering of array elements, comma separated.
pub open spec fn render_elems(es: Seq<Jv>) -> Seq<char>
    decreases es,
{
    if es.len() == 0 {
        Seq::empty()
    } else if es.len() == 1 {
        render_jv(es[0])
    } else {
        render_jv(es[0]) + seq![','] + render_elems(es.subrange(1, es.len() as int))
    }
}

/// The rendering of object members, comma separated, each as a quoted key,
/// a colon and a value.
pub open spec fn render_members(ms: Seq<(Seq<char>, Jv)>) -> Seq<char>
    decreases ms,
{
    if ms.len() == 0 {
        Seq::empty()
    } else {
        let head = seq!['"'] + escape_str(ms[0].0) + seq!['"', ':'] + render_jv(ms[0].1);
        if ms.len() == 1 {
            head
        } else {
            head + seq![','] + render_members(ms.subrange(1, ms.len() as int))
        }
    }
}

/// Escaping distributes over concatenation.
pub proof fn lemma_escape_append(a: Seq<char>, b: Seq<char>)
    ensures
        escape_str(a + b) == escape_str(a) + escape_str(b),
    decreases a.len(),
{
    if a.len() == 0 {
        assert(a + b =~= b);
        assert(escape_str(a) + escape_str(b) =~= escape_str(b));
    } else {
        assert((a + b).drop_first() =~= a.drop_first() + b);
        lemma_escape_append(a.drop_first(), b);
        assert(escape_char((a + b)[0]) == escape_char(a[0]));
        assert(escape_str(a) + escape_str(b) =~= escape_char(a[0]) + (escape_str(a.drop_first())
            + escape_str(b)));
    }
}

/// Exec form of [`digit_char`].
fn digit_char_exec(d: u32) -> (r: char)
    requires
        d < 10,
    ensures
        r == digit_char(d as int),
{
    let digits = ['0', '1', '2', '3', '4', '5', '6', '7', '8', '9'];
    digits[d as usize]
}

/// Exec form of [`hex_char`].
fn hex_char_exec(d: u32) -> (r: char)
    requires
        d < 16,
    ensures
        r == hex_char(d as int),
{
    let digits = [
        '0',
        '1',
        '2',
        '3',
        '4',
        '5',
        '6',
        '7',
        '8',
        '9',
        'a',
        'b',
        'c',
        'd',
        'e',
        'f',
    ];
    digits[d as usize]
}

/// Append the decimal digits of `n`.
fn push_u64(out: &mut String, n: u64)
    ensures
        final(out)@ == old(out)@ + dec_digits(n as nat),
    decreases n,
{
    if n < 10 {
        push_char(out, digit_char_exec(n as u32));
        proof {
            assert(old(out)@.push(digit_char(n as int)) =~= old(out)@ + dec_digits(n as nat));
        }
    } else {
        push_u64(out, n / 10);
        push_char(out, digit_char_exec((n % 10) as u32));
        proof {
            assert(old(out)@ + dec_digits((n / 10) as nat).push(digit_char((n % 10) as int)) =~= (
            old(out)@ + dec_digits((n / 10) as nat)).push(digit_char((n % 10) as int)));
        }
    }
}

/// Append the decimal rendering of `i`.
fn push_i64(out: &mut String, i: i64)
    ensures
        final(out)@ == old(out)@ + render_int(i as int),
{
    if i < 0 {
        push_char(out, '-');
        let m: u64 = if i == i64::MIN {
            9223372036854775808u64
        } else {
            (-i) as u64
        };
        proof {
            assert(m as nat == (-(i as int)) as nat);
        }
        push_u64(out, m);
        proof {
            assert(old(out)@.push('-') + dec_digits(m as nat) =~= old(out)@ + (seq!['-']
                + dec_digits((-(i as int)) as nat)));
        }
    } else {
        push_u64(out, i as u64);
    }
}

/// Append the escaped form of a string body.
fn push_escaped(out: &mut String, s: &str)
    ensures
        final(out)@ == old(out)@ + escape_str(s@),
{
    let n = s.unicode_len();
    let mut i: usize = 0;
    while i < n
        invariant
            n == s@.len(),
            0 <= i <= n,
            out@ == old(out)@ + escape_str(s@.take(i as int)),
        decreases n - i,
    {
        proof {
            assert(s@.take(i as int + 1) =~= s@.take(i as int) + seq![s@[i as int]]);
            lemma_escape_append(s@.take(i as int), seq![s@[i as int]]);
            assert(seq![s@[i as int]].drop_first() =~= Seq::<char>::empty());
            assert(escape_str(seq![s@[i as int]]) == escape_char(s@[i as int]) + escape_str(
                Seq::<char>::empty(),
            ));
            assert(escape_char(s@[i as int]) + Seq::<char>::empty() =~= escape_char(
                s@[i as int],
            ));
        }
        let c = s.get_char(i);
        if c == '"' {
            push_char(out, '\\');
            push_char(out, '"');
        } else if c == '\\' {
            push_char(out, '\\');
            push_char(out, '\\');
        } else if (c as u32) < 32 {
            push_char(out, '\\');
            push_char(out, 'u');
            push_char(out, '0');
            push_char(out, '0');
            push_char(out, hex_char_exec((c as u32) / 16));
            push_char(out, hex_char_exec((c as u32) % 16));
        } else {
            push_char(out, c);
        }
        proof {
            assert(out@ =~= old(out)@ + escape_str(s@.take(i as int + 1)));
        }
        i = i + 1;
    }
    proof {
        assert(s@.take(n as int) =~= s@);
    }
}

/// Append the rendering of a value.
fn push_value(out: &mut String, v: &ConfigValue)
    ensures
        final(out)@ == old(out)@ + render_jv(v.dv()),
    decreases *v,
{
    match v {
        ConfigValue::Null => {
            push_char(out, 'n');
            push_char(out, 'u');
            push_char(out, 'l');
            push_char(out, 'l');
            proof {
                assert(out@ =~= old(out)@ + render_jv(v.dv()));
            }
        },
        ConfigValue::Bool(b) => {
            if *b {
                push_char(out, 't');
                push_char(out, 'r');
                push_char(out, 'u');
                push_char(out, 'e');
            } else {
                push_char(out, 'f');
                push_char(out, 'a');
                push_char(out, 'l');
                push_char(out, 's');
                push_char(out, 'e');
            }
            proof {
                assert(out@ =~= old(out)@ + render_jv(v.dv()));
            }
        },
        ConfigValue::Int(n) => {
            push_i64(out, *n);
        },
        ConfigValue::Str(s) => {
            push_char(out, '"');
            push_escaped(out, s.as_str());
            push_char(out, '"');
            proof {
                assert(out@ =~= old(out)@ + render_jv(v.dv()));
            }
        },
        ConfigValue::Arr(es) => {
            push_char(out, '[');
            let n = es.len();
            let mut i: usize = 0;
            while i < n
                invariant
                    decreases_to!(*v => *es),
                    v.dv() == Jv::Arr(arr_dv(es@)),
                    n == es@.len(),
                    0 <= i <= n,
                    out@ == old(out)@ + seq!['['] + joined_elems(arr_dv(es@), i as int),
                decreases n - i,
            {
                proof {
                    assert(decreases_to!(*es => es@[i as int])) by {
                        assert(decreases_to!(*es => es@));
                        assert(decreases_to!(es@ => es@[i as int]));
                    }
                }
                if i > 0 {
                    push_char(out, ',');
                }
                push_value(out, &es[i]);
                proof {
                    if i == 0 {
                        assert(joined_elems(arr_dv(es@), 1) == render_jv(arr_dv(es@)[0]));
                    } else {
                        assert(joined_elems(arr_dv(es@), i as int + 1) == joined_elems(
                            arr_dv(es@),
                            i as int,
                        ) + seq![','] + render_jv(arr_dv(es@)[i as int]));
                    }
                    assert(out@ =~= old(out)@ + seq!['['] + joined_elems(
                        arr_dv(es@),
                        i as int + 1,
                    ));
                }
                i = i + 1;
            }
            push_char(out, ']');
            proof {
                lemma_render_elems_take(arr_dv(es@), n as int);
                assert(arr_dv(es@).take(n as int) =~= arr_dv(es@));
                assert(out@ =~= old(out)@ + render_jv(v.dv()));
            }
        },
        ConfigValue::Obj(ms) => {
            push_char(out, '{');
            let n = ms.len();
            let mut i: usize = 0;
            while i < n
                invariant
                    decreases_to!(*v => *ms),
                    v.dv() == Jv::Obj(obj_dv(ms@)),
                    n == ms@.len(),
                    0 <= i <= n,
                    out@ == old(out)@ + seq!['{'] + joined_members(obj_dv(ms@), i as int),
                decreases n - i,
            {
                proof {
                    assert(decreases_to!(*ms => ms@[i as int].1)) by {
                        assert(decreases_to!(*ms => ms@));
                        assert(decreases_to!(ms@ => ms@[i as int]));
                        assert(decreases_to!(ms@[i as int] => ms@[i as int].1));
                    }
                }
                if i > 0 {
                    push_char(out, ',');
                }
                push_char(out, '"');
                push_escaped(out, ms[i].0.as_str());
                push_char(out, '"');
                push_char(out, ':');
                push_value(out, &ms[i].1);
                proof {
                    if i == 0 {
                        assert(joined_members(obj_dv(ms@), 1) == render_member(obj_dv(ms@)[0]));
                    } else {
                        assert(joined_members(obj_dv(ms@), i as int + 1) == joined_members(
                            obj_dv(ms@),
                            i as int,
                        ) + seq![','] + render_member(obj_dv(ms@)[i as int]));
                    }
                    assert(out@ =~= old(out)@ + seq!['{'] + joined_members(
                        obj_dv(ms@),
                        i as int + 1,
                    ));
                }
                i = i + 1;
            }
            push_char(out, '}');
            proof {
                lemma_render_members_take(obj_dv(ms@), n as int);
                assert(obj_dv(ms@).take(n as int) =~= obj_dv(ms@));
                assert(out@ =~= old(out)@ + render_jv(v.dv()));
            }
        },
    }
}

/// The rendering of a prefix, spelled out as a join.
pub open spec fn joined_elems(es: Seq<Jv>, i: int) -> Seq<char>
    decreases i,
{
    if i <= 0 {
        Seq::empty()
    } else if i == 1 {
        render_jv(es[0])
    } else {
        joined_elems(es, i - 1) + seq![','] + render_jv(es[i - 1])
    }
}

/// `render_elems` of a take agrees with the element-by-element join.
proof fn lemma_render_elems_take(es: Seq<Jv>, i: int)
    requires
        0 <= i <= es.len(),
    ensures
        render_elems(es.take(i)) == joined_elems(es, i),
    decreases es.len(),
{
    if i == 0 {
        assert(es.take(0) =~= Seq::<Jv>::empty());
    } else if es.len() >= 1 {
        let rest = es.subrange(1, es.len() as int);
        if i == 1 {
            if es.take(1).len() == 1 {
                assert(es.take(1)[0] == es[0]);
            }
        } else {
            assert(es.take(i).subrange(1, i) =~= rest.take(i - 1));
            lemma_render_elems_take(rest, i - 1);
            lemma_joined_shift(es, rest, i - 1);
        }
    }
}

/// Joins over a sequence and over its tail line up.
proof fn lemma_joined_shift(es: Seq<Jv>, rest: Seq<Jv>, k: int)
    requires
        es.len() >= 1,
        rest == es.subrange(1, es.len() as int),
        0 <= k <= rest.len(),
    ensures
        render_jv(es[0]) + (if k > 0 {
            seq![','] + joined_elems(rest, k)
        } else {
            Seq::<char>::empty()
        }) == joined_elems(es, k + 1),
    decreases k,
{
    if k == 0 {
        assert(render_jv(es[0]) + Seq::<char>::empty() =~= render_jv(es[0]));
    } else if k == 1 {
        assert(rest[0] == es[1]);
        assert(joined_elems(es, 1) == render_jv(es[0]));
        assert(joined_elems(rest, 1) == render_jv(rest[0]));
        assert(render_jv(es[0]) + (seq![','] + render_jv(rest[0])) =~= joined_elems(es, 2));
    } else {
        lemma_joined_shift(es, rest, k - 1);
        assert(rest[k - 1] == es[k]);
        assert(render_jv(es[0]) + (seq![','] + joined_elems(rest, k)) =~= (render_jv(es[0]) + (seq![
            ',',
        ] + joined_elems(rest, k - 1))) + seq![','] + render_jv(rest[k - 1]));
    }
}

/// The rendering of one member.
pub open spec fn render_member(m: (Seq<char>, Jv)) -> Seq<char> {
    seq!['"'] + escape_str(m.0) + seq!['"', ':'] + render_jv(m.1)
}

/// The member join analogue of [`joined_elems`].
pub open spec fn joined_members(ms: Seq<(Seq<char>, Jv)>, i: int) -> Seq<char>
    decreases i,
{
    if i <= 0 {
        Seq::empty()
    } else if i == 1 {
        render_member(ms[0])
    } else {
        joined_members(ms, i - 1) + seq![','] + render_member(ms[i - 1])
    }
}

/// `render_members` of a take agrees with the member-by-member join.
proof fn lemma_render_members_take(ms: Seq<(Seq<char>, Jv)>, i: int)
    requires
        0 <= i <= ms.len(),
    ensures
        render_members(ms.take(i)) == joined_members(ms, i),
    decreases ms.len(),
{
    if i == 0 {
        assert(ms.take(0) =~= Seq::<(Seq<char>, Jv)>::empty());
    } else if ms.len() >= 1 {
        let rest = ms.subrange(1, ms.len() as int);
        if i == 1 {
            assert(ms.take(1)[0] == ms[0]);
            assert(render_members(ms.take(1)) =~= render_member(ms[0]));
        } else {
            assert(ms.take(i).subrange(1, i) =~= rest.take(i - 1));
            lemma_render_members_take(rest, i - 1);
            lemma_joined_members_shift(ms, rest, i - 1);
        }
    }
}

/// Joins over a member sequence and over its tail line up.
proof fn lemma_joined_members_shift(
    ms: Seq<(Seq<char>, Jv)>,
    rest: Seq<(Seq<char>, Jv)>,
    k: int,
)
    requires
        ms.len() >= 1,
        rest == ms.subrange(1, ms.len() as int),
        0 <= k <= rest.len(),
    ensures
        render_member(ms[0]) + (if k > 0 {
            seq![','] + joined_members(rest, k)
        } else {
            Seq::<char>::empty()
        }) == joined_members(ms, k + 1),
    decreases k,
{
    if k == 0 {
        assert(render_member(ms[0]) + Seq::<char>::empty() =~= render_member(ms[0]));
    } else if k == 1 {
        assert(rest[0] == ms[1]);
        assert(joined_members(ms, 1) == render_member(ms[0]));
        assert(joined_members(rest, 1) == render_member(rest[0]));
        assert(render_member(ms[0]) + (seq![','] + render_member(rest[0])) =~= joined_members(
            ms,
            2,
        ));
    } else {
        lemma_joined_members_shift(ms, rest, k - 1);
        assert(rest[k - 1] == ms[k]);
        assert(render_member(ms[0]) + (seq![','] + joined_members(rest, k)) =~= (render_member(
            ms[0],
        ) + (seq![','] + joined_members(rest, k - 1))) + seq![','] + render_member(rest[k - 1]));
    }
}

/// Parse a run of decimal digits starting at `i`, accumulating onto `acc`;
/// returns the value and the position after the run.
pub open spec fn parse_digits(s: Seq<char>, i: int, acc: nat) -> (nat, int)
    decreases s.len() - i,
{
    if 0 <= i < s.len() && is_digit(s[i]) {
        parse_digits(s, i + 1, acc * 10 + digit_val(s[i]) as nat)
    } else {
        (acc, i)
    }
}

/// Parse an integer at `i`: an optional minus sign and at least one digit,
/// rejected when the value falls outside the signed 64-bit range.
pub open spec fn parse_int(s: Seq<char>, i: int) -> Option<(int, int)> {
    if 0 <= i < s.len() && s[i] == '-' {
        if i + 1 < s.len() && is_digit(s[i + 1]) {
            let (m, j) = parse_digits(s, i + 1, 0);
            if m <= 9223372036854775808 {
                Some((-(m as int), j))
            } else {
                None
            }
        } else {
            None
        }
    } else if 0 <= i < s.len() && is_digit(s[i]) {
        let (m, j) = parse_digits(s, i, 0);
        if m <= 9223372036854775807 {
            Some((m as int, j))
        } else {
            None
        }
    } else {
        None
    }
}

/// Parse a string body after its opening quote, up to and including the
/// closing quote; raw control characters are refused.
pub open spec fn parse_string_body(s: Seq<char>, i: int) -> Option<(Seq<char>, int)>
    decreases s.len() - i,
{
    if !(0 <= i < s.len()) {
        None
    } else if s[i] == '"' {
        Some((Seq::empty(), i + 1))
    } else if s[i] == '\\' {
        if i + 1 < s.len() {
            let e = s[i + 1];
            if e == '"' || e == '\\' || e == '/' {
                match parse_string_body(s, i + 2) {
                    Some((rest, j)) => Some((seq![e] + rest, j)),
                    None => None,
                }
            } else if e == 'n' || e == 't' || e == 'r' || e == 'b' || e == 'f' {
                let c = if e == 'n' {
                    '\n'
                } else if e == 't' {
                    '\t'
                } else if e == 'r' {
                    '\r'
                } else if e == 'b' {
                    '\u{0008}'
                } else {
                    '\u{000C}'
                };
                match parse_string_body(s, i + 2) {
                    Some((rest, j)) => Some((seq![c] + rest, j)),
                    None => None,
                }
            } else if e == 'u' {
                if i + 6 <= s.len() && hex_val(s[i + 2]) < 16 && hex_val(s[i + 3]) < 16 && hex_val(
                    s[i + 4],
                ) < 16 && hex_val(s[i + 5]) < 16 {
                    let code = hex_val(s[i + 2]) * 4096 + hex_val(s[i + 3]) * 256 + hex_val(
                        s[i + 4],
                    ) * 16 + hex_val(s[i + 5]);
                    if 55296 <= code <= 57343 {
                        None
                    } else {
                        match parse_string_body(s, i + 6) {
                            Some((rest, j)) => Some((seq![code as char] + rest, j)),
                            None => None,
                        }
                    }
                } else {
                    None
                }
            } else {
                None
            }
        } else {
            None
        }
    } else if (s[i] as int) < 32 {
        None
    } else {
        match parse_string_body(s, i + 1) {
            Some((rest, j)) => Some((seq![s[i]] + rest, j)),
            None => None,
        }
    }
}

/// Parse one value at `i`. The fuel bounds the nesting the parser will
/// follow; one more than the input length is always enough.
pub open spec fn parse_value_at(s: Seq<char>, i: int, fuel: nat) -> Option<(Jv, int)>
    decreases fuel,
{
    if fuel == 0 || !(0 <= i < s.len()) {
        None
    } else {
        let c = s[i];
        if c == 'n' {
            if i + 4 <= s.len() && s.subrange(i, i + 4) == seq!['n', 'u', 'l', 'l'] {
                Some((Jv::Null, i + 4))
            } else {
                None
            }
        } else if c == 't' {
            if i + 4 <= s.len() && s.subrange(i, i + 4) == seq!['t', 'r', 'u', 'e'] {
                Some((Jv::Bool(true), i + 4))
            } else {
                None
            }
        } else if c == 'f' {
            if i + 5 <= s.len() && s.subrange(i, i + 5) == seq!['f', 'a', 'l', 's', 'e'] {
                Some((Jv::Bool(false), i + 5))
            } else {
                None
            }
        } else if c == '"' {
            match parse_string_body(s, i + 1) {
                Some((cs, j)) => Some((Jv::Str(cs), j)),
                None => None,
            }
        } else if c == '[' {
            if i + 1 < s.len() && s[i + 1] == ']' {
                Some((Jv::Arr(Seq::empty()), i + 2))
            } else {
                match parse_elems(s, i + 1, (fuel - 1) as nat) {
                    Some((es, j)) => Some((Jv::Arr(es), j)),
                    None => None,
                }
            }
        } else if c == '{' {
            if i + 1 < s.len() && s[i + 1] == '}' {
                Some((Jv::Obj(Seq::empty()), i + 2))
            } else {
                match parse_members(s, i + 1, (fuel - 1) as nat) {
                    Some((ms, j)) => Some((Jv::Obj(ms), j)),
                    None => None,
                }
            }
        } else if c == '-' || is_digit(c) {
            match parse_int(s, i) {
                Some((v, j)) => Some((Jv::Int(v), j)),
                None => None,
            }
        } else {
            None
        }
    }
}

/// Parse one or more comma-separated elements followed by `]`.
pub open spec fn parse_elems(s: Seq<char>, i: int, fuel: nat) -> Option<(Seq<Jv>, int)>
    decreases fuel,
{
    if fuel == 0 {
        None
    } else {
        match parse_value_at(s, i, (fuel - 1) as nat) {
            Some((v, j)) => if 0 <= j < s.len() && s[j] == ',' {
                match parse_elems(s, j + 1, (fuel - 1) as nat) {
                    Some((es, k)) => Some((seq![v] + es, k)),
                    None => None,
                }
            } else if 0 <= j < s.len() && s[j] == ']' {
                Some((seq![v], j + 1))
            } else {
                None
            },
            None => None,
        }
    }
}

/// Parse one or more comma-separated `"key":value` members followed by
/// `}`.
pub open spec fn parse_members(s: Seq<char>, i: int, fuel: nat) -> Option<
    (Seq<(Seq<char>, Jv)>, int),
>
    decreases fuel,
{
    if fuel == 0 {
        None
    } else if 0 <= i < s.len() && s[i] == '"' {
        match parse_string_body(s, i + 1) {
            Some((k, j)) => if 0 <= j < s.len() && s[j] == ':' {
                match parse_value_at(s, j + 1, (fuel - 1) as nat) {
                    Some((v, j2)) => if 0 <= j2 < s.len() && s[j2] == ',' {
                        match parse_members(s, j2 + 1, (fuel - 1) as nat) {
                            Some((ms, k2)) => Some((seq![(k, v)] + ms, k2)),
                            None => None,
                        }
                    } else if 0 <= j2 < s.len() && s[j2] == '}' {
                        Some((seq![(k, v)], j2 + 1))
                    } else {
                        None
                    },
                    None => None,
                }
            } else {
                None
            },
            None => None,
        }
    } else {
        None
    }
}

/// What parsing a whole document yields: the value, when one value spans
/// exactly the input.
pub open spec fn parse_text_spec(s: Seq<char>) -> Option<Jv> {
    match parse_value_at(s, 0, (s.len() + 1) as nat) {
        Some((j, n)) => if n == s.len() {
            Some(j)
        } else {
            None
        },
        None => None,
    }
}

/// Accumulating over a digit run never shrinks the accumulator.
proof fn lemma_parse_digits_lower(s: Seq<char>, i: int, acc: nat)
    ensures
        parse_digits(s, i, acc).0 >= acc,
    decreases s.len() - i,
{
    if 0 <= i < s.len() && is_digit(s[i]) {
        assert(acc * 10 + digit_val(s[i]) as nat >= acc) by (nonlinear_arith);
        lemma_parse_digits_lower(s, i + 1, (acc * 10 + digit_val(s[i]) as nat) as nat);
    }
}

fn exec_parse_digits(s: &Vec<char>, i: usize, acc: u64) -> (r: Result<(u64, usize), ()>)
    requires
        i <= s@.len(),
    ensures
        match r {
            Ok(p) => parse_digits(s@, i as int, acc as nat) == (p.0 as nat, p.1 as int) && p.1
                <= s@.len(),
            Err(_) => parse_digits(s@, i as int, acc as nat).0 > u64::MAX,
        },
    decreases s@.len() - i,
{
    let n = s.len();
    if i < n && '0' <= s[i] && s[i] <= '9' {
        let d: u64 = ((s[i] as u32) - 48) as u64;
        if acc > (u64::MAX - d) / 10 {
            proof {
                let q = (u64::MAX - d) / 10;
                assert(q * 10 + (u64::MAX - d) % 10 == u64::MAX - d);
                assert(acc * 10 >= (q + 1) * 10) by (nonlinear_arith)
                    requires
                        acc >= q + 1,
                ;
                assert(acc * 10 + d > u64::MAX);
                lemma_parse_digits_lower(
                    s@,
                    i as int + 1,
                    (acc as nat * 10 + digit_val(s@[i as int]) as nat) as nat,
                );
            }
            Err(())
        } else {
            exec_parse_digits(s, i + 1, acc * 10 + d)
        }
    } else {
        Ok((acc, i))
    }
}

fn exec_parse_int(s: &Vec<char>, i: usize) -> (r: Result<(i64, usize), ()>)
    requires
        i <= s@.len(),
    ensures
        match r {
            Ok(p) => parse_int(s@, i as int) == Some((p.0 as int, p.1 as int)) && p.1 <= s@.len(),
            Err(_) => parse_int(s@, i as int) is None,
        },
{
    let n = s.len();
    if i < n && s[i] == '-' {
        if i + 1 < n && '0' <= s[i + 1] && s[i + 1] <= '9' {
            match exec_parse_digits(s, i + 1, 0) {
                Ok((m, j)) => {
                    if m <= 9223372036854775808u64 {
                        let v: i64 = if m == 9223372036854775808u64 {
                            i64::MIN
                        } else {
                            -(m as i64)
                        };
                        Ok((v, j))
                    } else {
                        Err(())
                    }
                },
                Err(_) => Err(()),
            }
        } else {
            Err(())
        }
    } else if i < n && '0' <= s[i] && s[i] <= '9' {
        match exec_parse_digits(s, i, 0) {
            Ok((m, j)) => {
                if m <= 9223372036854775807u64 {
                    Ok((m as i64, j))
                } else {
                    Err(())
                }
            },
            Err(_) => Err(()),
        }
    } else {
        Err(())
    }
}

fn exec_hex_val(c: char) -> (r: u32)
    ensures
        r == hex_val(c),
        r <= 16,
{
    if '0' <= c && c <= '9' {
        (c as u32) - 48
    } else if 'a' <= c && c <= 'f' {
        (c as u32) - 87
    } else if 'A' <= c && c <= 'F' {
        (c as u32) - 55
    } else {
        16
    }
}

/// Is `c` a control character (code below 32)?
fn is_control_char(c: char) -> (r: bool)
    ensures
        r == ((c as int) < 32),
{
    (c as u32) < 32
}

fn exec_parse_string_body(s: &Vec<char>, i: usize) -> (r: Result<(String, usize), ()>)
    requires
        i <= s@.len(),
    ensures
        match r {
            Ok(p) => parse_string_body(s@, i as int) == Some((p.0@, p.1 as int)) && p.1
                <= s@.len(),
            Err(_) => parse_string_body(s@, i as int) is None,
        },
    decreases s@.len() - i,
{
    let n = s.len();
    if i >= n {
        return Err(());
    }
    let c = s[i];
    if c == '"' {
        let out = String::new();
        proof {
            assert(out@ =~= Seq::<char>::empty());
        }
        Ok((out, i + 1))
    } else if c == '\\' {
        if i + 1 < n {
            let e = s[i + 1];
            if e == '"' || e == '\\' || e == '/' {
                match exec_parse_string_body(s, i + 2) {
                    Ok((rest, j)) => {
                        let mut out = String::new();
                        push_char(&mut out, e);
                        out.append(rest.as_str());
                        proof {
                            assert(out@ =~= seq![e] + rest@);
                        }
                        Ok((out, j))
                    },
                    Err(_) => Err(()),
                }
            } else if e == 'n' || e == 't' || e == 'r' || e == 'b' || e == 'f' {
                let c2: char = if e == 'n' {
                    '\n'
                } else if e == 't' {
                    '\t'
                } else if e == 'r' {
                    '\r'
                } else if e == 'b' {
                    '\u{0008}'
                } else {
                    '\u{000C}'
                };
                match exec_parse_string_body(s, i + 2) {
                    Ok((rest, j)) => {
                        let mut out = String::new();
                        push_char(&mut out, c2);
                        out.append(rest.as_str());
                        proof {
                            assert(out@ =~= seq![c2] + rest@);
                        }
                        Ok((out, j))
                    },
                    Err(_) => Err(()),
                }
            } else if e == 'u' {
                if n - i >= 6 {
                    let h1 = exec_hex_val(s[i + 2]);
                    let h2 = exec_hex_val(s[i + 3]);
                    let h3 = exec_hex_val(s[i + 4]);
                    let h4 = exec_hex_val(s[i + 5]);
                    if h1 < 16 && h2 < 16 && h3 < 16 && h4 < 16 {
                        let code: u32 = h1 * 4096 + h2 * 256 + h3 * 16 + h4;
                        if 55296 <= code && code <= 57343 {
                            Err(())
                        } else {
                            let c2 = match crate::ext::char_from_u32(code) {
                                Some(ch) => ch,
                                None => {
                                    proof {
                                        assert(false);
                                    }
                                    '?'
                                },
                            };
                            match exec_parse_string_body(s, i + 6) {
                                Ok((rest, j)) => {
                                    let mut out = String::new();
                                    push_char(&mut out, c2);
                                    out.append(rest.as_str());
                                    proof {
                                        assert(out@ =~= seq![c2] + rest@);
                                    }
                                    Ok((out, j))
                                },
                                Err(_) => Err(()),
                            }
                        }
                    } else {
                        Err(())
                    }
                } else {
                    Err(())
                }
            } else {
                Err(())
            }
        } else {
            Err(())
        }
    } else if is_control_char(c) {
        Err(())
    } else {
        match exec_parse_string_body(s, i + 1) {
            Ok((rest, j)) => {
                let mut out = String::new();
                push_char(&mut out, c);
                out.append(rest.as_str());
                proof {
                    assert(out@ =~= seq![c] + rest@);
                }
                Ok((out, j))
            },
            Err(_) => Err(()),
        }
    }
}

fn exec_parse_value(s: &Vec<char>, i: usize, fuel: u64) -> (r: Result<(ConfigValue, usize), ()>)
    requires
        i <= s@.len(),
    ensures
        match r {
            Ok(p) => parse_value_at(s@, i as int, fuel as nat) == Some((p.0.dv(), p.1 as int))
                && p.1 <= s@.len(),
            Err(_) => parse_value_at(s@, i as int, fuel as nat) is None,
        },
    decreases fuel,
{
    let n = s.len();
    if fuel == 0 || i >= n {
        return Err(());
    }
    let c = s[i];
    if c == 'n' {
        if n - i >= 4 && s[i + 1] == 'u' && s[i + 2] == 'l' && s[i + 3] == 'l' {
            proof {
                assert(s@.subrange(i as int, i as int + 4) =~= seq!['n', 'u', 'l', 'l']);
            }
            Ok((ConfigValue::Null, i + 4))
        } else {
            proof {
                if i as int + 4 <= s@.len() && s@.subrange(i as int, i as int + 4) == seq![
                    'n',
                    'u',
                    'l',
                    'l',
                ] {
                    assert(s@[i as int + 1] == 'u' && s@[i as int + 2] == 'l' && s@[i as int + 3]
                        == 'l');
                }
            }
            Err(())
        }
    } else if c == 't' {
        if n - i >= 4 && s[i + 1] == 'r' && s[i + 2] == 'u' && s[i + 3] == 'e' {
            proof {
                assert(s@.subrange(i as int, i as int + 4) =~= seq!['t', 'r', 'u', 'e']);
            }
            Ok((ConfigValue::Bool(true), i + 4))
        } else {
            proof {
                if i as int + 4 <= s@.len() && s@.subrange(i as int, i as int + 4) == seq![
                    't',
                    'r',
                    'u',
                    'e',
                ] {
                    assert(s@[i as int + 1] == 'r' && s@[i as int + 2] == 'u' && s@[i as int + 3]
                        == 'e');
                }
            }
            Err(())
        }
    } else if c == 'f' {
        if n - i >= 5 && s[i + 1] == 'a' && s[i + 2] == 'l' && s[i + 3] == 's' && s[i + 4] == 'e' {
            proof {
                assert(s@.subrange(i as int, i as int + 5) =~= seq!['f', 'a', 'l', 's', 'e']);
            }
            Ok((ConfigValue::Bool(false), i + 5))
        } else {
            proof {
                if i as int + 5 <= s@.len() && s@.subrange(i as int, i as int + 5) == seq![
                    'f',
                    'a',
                    'l',
                    's',
                    'e',
                ] {
                    assert(s@[i as int + 1] == 'a' && s@[i as int + 2] == 'l' && s@[i as int + 3]
                        == 's' && s@[i as int + 4] == 'e');
                }
            }
            Err(())
        }
    } else if c == '"' {
        match exec_parse_string_body(s, i + 1) {
            Ok((cs, j)) => Ok((ConfigValue::Str(cs), j)),
            Err(_) => Err(()),
        }
    } else if c == '[' {
        if i + 1 < n && s[i + 1] == ']' {
            let r = ConfigValue::Arr(Vec::new());
            proof {
                assert(arr_dv(Seq::<ConfigValue>::empty()) =~= Seq::<Jv>::empty());
            }
            Ok((r, i + 2))
        } else {
            match exec_parse_elems(s, i + 1, fuel - 1) {
                Ok((es, j)) => Ok((ConfigValue::Arr(es), j)),
                Err(_) => Err(()),
            }
        }
    } else if c == '{' {
        if i + 1 < n && s[i + 1] == '}' {
            let r = ConfigValue::Obj(Vec::new());
            proof {
                assert(obj_dv(Seq::<(String, ConfigValue)>::empty()) =~= Seq::<(
                    Seq<char>,
                    Jv,
                )>::empty());
            }
            Ok((r, i + 2))
        } else {
            match exec_parse_members(s, i + 1, fuel - 1) {
                Ok((ms, j)) => Ok((ConfigValue::Obj(ms), j)),
                Err(_) => Err(()),
            }
        }
    } else if c == '-' || ('0' <= c && c <= '9') {
        match exec_parse_int(s, i) {
            Ok((v, j)) => Ok((ConfigValue::Int(v), j)),
            Err(_) => Err(()),
        }
    } else {
        Err(())
    }
}

fn exec_parse_elems(s: &Vec<char>, i: usize, fuel: u64) -> (r: Result<
    (Vec<ConfigValue>, usize),
    (),
>)
    requires
        i <= s@.len(),
    ensures
        match r {
            Ok(p) => parse_elems(s@, i as int, fuel as nat) == Some((arr_dv(p.0@), p.1 as int))
                && p.1 <= s@.len(),
            Err(_) => parse_elems(s@, i as int, fuel as nat) is None,
        },
    decreases fuel,
{
    if fuel == 0 {
        return Err(());
    }
    match exec_parse_value(s, i, fuel - 1) {
        Ok((v, j)) => {
            let n = s.len();
            if j < n && s[j] == ',' {
                match exec_parse_elems(s, j + 1, fuel - 1) {
                    Ok((mut es, k)) => {
                        let ghost tail = arr_dv(es@);
                        es.insert(0, v);
                        proof {
                            assert(arr_dv(es@) =~= seq![v.dv()] + tail);
                        }
                        Ok((es, k))
                    },
                    Err(_) => Err(()),
                }
            } else if j < n && s[j] == ']' {
                let mut es: Vec<ConfigValue> = Vec::new();
                es.push(v);
                proof {
                    assert(arr_dv(es@) =~= seq![v.dv()]);
                }
                Ok((es, j + 1))
            } else {
                Err(())
            }
        },
        Err(_) => Err(()),
    }
}

fn exec_parse_members(s: &Vec<char>, i: usize, fuel: u64) -> (r: Result<
    (Vec<(String, ConfigValue)>, usize),
    (),
>)
    requires
        i <= s@.len(),
    ensures
        match r {
            Ok(p) => parse_members(s@, i as int, fuel as nat) == Some((obj_dv(p.0@), p.1 as int))
                && p.1 <= s@.len(),
            Err(_) => parse_members(s@, i as int, fuel as nat) is None,
        },
    decreases fuel,
{
    if fuel == 0 {
        return Err(());
    }
    let n = s.len();
    if i < n && s[i] == '"' {
        match exec_parse_string_body(s, i + 1) {
            Ok((k, j)) => {
                if j < n && s[j] == ':' {
                    match exec_parse_value(s, j + 1, fuel - 1) {
                        Ok((v, j2)) => {
                            if j2 < n && s[j2] == ',' {
                                match exec_parse_members(s, j2 + 1, fuel - 1) {
                                    Ok((mut ms, k2)) => {
                                        let ghost tail = obj_dv(ms@);
                                        ms.insert(0, (k, v));
                                        proof {
                                            assert(obj_dv(ms@) =~= seq![(k@, v.dv())] + tail);
                                        }
                                        Ok((ms, k2))
                                    },
                                    Err(_) => Err(()),
                                }
                            } else if j2 < n && s[j2] == '}' {
                                let mut ms: Vec<(String, ConfigValue)> = Vec::new();
                                ms.push((k, v));
                                proof {
                                    assert(obj_dv(ms@) =~= seq![(k@, v.dv())]);
                                }
                                Ok((ms, j2 + 1))
                            } else {
                                Err(())
                            }
                        },
                        Err(_) => Err(()),
                    }
                } else {
                    Err(())
                }
            },
            Err(_) => Err(()),
        }
    } else {
        Err(())
    }
}

/// Parse a whole document. Returns the value when exactly one value spans
/// the input, and nothing otherwise.
pub fn parse_text(s: &str) -> (r: Option<ConfigValue>)
    requires
        s@.len() < usize::MAX,
    ensures
        match r {
            Some(v) => parse_text_spec(s@) == Some(v.dv()),
            None => parse_text_spec(s@) is None,
        },
{
    let chars = str_chars(s);
    let n = chars.len();
    match exec_parse_value(&chars, 0, (n as u64) + 1) {
        Ok((v, j)) => {
            if j == n {
                Some(v)
            } else {
                None
            }
        },
        Err(_) => None,
    }
}

/// Every value an exec node can stand for keeps its integers in the
/// signed 64-bit range.
pub open spec fn jv_i64(j: Jv) -> bool
    decreases j,
{
    match j {
        Jv::Null => true,
        Jv::Bool(_) => true,
        Jv::Int(i) => i64::MIN <= i <= i64::MAX,
        Jv::Str(_) => true,
        Jv::Arr(es) => jv_i64_elems(es),
        Jv::Obj(ms) => jv_i64_members(ms),
    }
}

/// Helper of [`jv_i64`], over element lists.
pub open spec fn jv_i64_elems(es: Seq<Jv>) -> bool
    decreases es,
{
    if es.len() == 0 {
        true
    } else {
        jv_i64(es[0]) && jv_i64_elems(es.subrange(1, es.len() as int))
    }
}

/// Helper of [`jv_i64`], over member lists.
pub open spec fn jv_i64_members(ms: Seq<(Seq<char>, Jv)>) -> bool
    decreases ms,
{
    if ms.len() == 0 {
        true
    } else {
        jv_i64(ms[0].1) && jv_i64_members(ms.subrange(1, ms.len() as int))
    }
}

/// What an exec node stands for always keeps its integers in range.
pub proof fn lemma_dv_i64(v: ConfigValue)
    ensures
        jv_i64(v.dv()),
    decreases v, 0int,
{
    match v {
        ConfigValue::Arr(vs) => {
            assert forall|k: int| 0 <= k <= vs@.len() implies jv_i64_elems(
                arr_dv(vs@).subrange(k, vs@.len() as int),
            ) by {
                lemma_dv_i64_elems(vs@, k);
            }
            assert(arr_dv(vs@).subrange(0, vs@.len() as int) =~= arr_dv(vs@));
        },
        ConfigValue::Obj(ms) => {
            assert forall|k: int| 0 <= k <= ms@.len() implies jv_i64_members(
                obj_dv(ms@).subrange(k, ms@.len() as int),
            ) by {
                lemma_dv_i64_members(ms@, k);
            }
            assert(obj_dv(ms@).subrange(0, ms@.len() as int) =~= obj_dv(ms@));
        },
        _ => {},
    }
}

proof fn lemma_dv_i64_elems(vs: Seq<ConfigValue>, k: int)
    requires
        0 <= k <= vs.len(),
    ensures
        jv_i64_elems(arr_dv(vs).subrange(k, vs.len() as int)),
    decreases vs, vs.len() - k,
{
    if k < vs.len() {
        lemma_dv_i64(vs[k]);
        lemma_dv_i64_elems(vs, k + 1);
        let tail = arr_dv(vs).subrange(k, vs.len() as int);
        assert(tail[0] == vs[k].dv());
        assert(tail.subrange(1, tail.len() as int) =~= arr_dv(vs).subrange(
            k + 1,
            vs.len() as int,
        ));
    }
}

proof fn lemma_dv_i64_members(ms: Seq<(String, ConfigValue)>, k: int)
    requires
        0 <= k <= ms.len(),
    ensures
        jv_i64_members(obj_dv(ms).subrange(k, ms.len() as int)),
    decreases ms, ms.len() - k,
{
    if k < ms.len() {
        lemma_dv_i64(ms[k].1);
        lemma_dv_i64_members(ms, k + 1);
        let tail = obj_dv(ms).subrange(k, ms.len() as int);
        assert(tail[0] == (ms[k].0@, ms[k].1.dv()));
        assert(tail.subrange(1, tail.len() as int) =~= obj_dv(ms).subrange(
            k + 1,
            ms.len() as int,
        ));
    }
}

/// Every character of a decimal rendering is a digit.
proof fn lemma_dec_digits_are_digits(m: nat)
    ensures
        dec_digits(m).len() >= 1,
        forall|t: int| 0 <= t < dec_digits(m).len() ==> is_digit(dec_digits(m)[t]),
    decreases m,
{
    if m >= 10 {
        lemma_dec_digits_are_digits(m / 10);
    }
}

/// Reading digits left to right onto an accumulator.
pub open spec fn fold_digits(acc: nat, ds: Seq<char>) -> nat
    decreases ds.len(),
{
    if ds.len() == 0 {
        acc
    } else {
        fold_digits((acc * 10 + digit_val(ds[0])) as nat, ds.drop_first())
    }
}

proof fn lemma_fold_digits_append(acc: nat, a: Seq<char>, b: Seq<char>)
    ensures
        fold_digits(acc, a + b) == fold_digits(fold_digits(acc, a), b),
    decreases a.len(),
{
    if a.len() == 0 {
        assert(a + b =~= b);
    } else {
        assert((a + b).drop_first() =~= a.drop_first() + b);
        assert((a + b)[0] == a[0]);
        lemma_fold_digits_append((acc * 10 + digit_val(a[0])) as nat, a.drop_first(), b);
    }
}

/// Folding the decimal rendering of `m` recovers `m`.
proof fn lemma_fold_dec_digits(m: nat)
    ensures
        fold_digits(0, dec_digits(m)) == m,
{
    lemma_fold_dec_digits_acc(0, m);
}

proof fn lemma_fold_dec_digits_acc(acc: nat, m: nat)
    ensures
        fold_digits(acc, dec_digits(m)) == acc * pow10_len(m) + m,
    decreases m,
{
    if m < 10 {
        assert(dec_digits(m) == seq![digit_char(m as int)]);
        assert(digit_val(digit_char(m as int)) == m);
        assert(seq![digit_char(m as int)].drop_first() =~= Seq::<char>::empty());
        assert(fold_digits(acc, seq![digit_char(m as int)]) == fold_digits(
            (acc * 10 + digit_val(digit_char(m as int))) as nat,
            seq![digit_char(m as int)].drop_first(),
        ));
        assert(fold_digits((acc * 10 + m) as nat, Seq::<char>::empty()) == acc * 10 + m);
    } else {
        let head = dec_digits(m / 10);
        assert(dec_digits(m) =~= head + seq![digit_char((m % 10) as int)]);
        lemma_fold_digits_append(acc, head, seq![digit_char((m % 10) as int)]);
        lemma_fold_dec_digits_acc(acc, m / 10);
        assert(digit_val(digit_char((m % 10) as int)) == m % 10);
        assert(seq![digit_char((m % 10) as int)].drop_first() =~= Seq::<char>::empty());
        let x = fold_digits(acc, head);
        assert(fold_digits(x, seq![digit_char((m % 10) as int)]) == fold_digits(
            (x * 10 + digit_val(digit_char((m % 10) as int))) as nat,
            seq![digit_char((m % 10) as int)].drop_first(),
        ));
        assert(fold_digits((x * 10 + m % 10) as nat, Seq::<char>::empty()) == x * 10 + m % 10);
        assert(fold_digits(fold_digits(acc, head), seq![digit_char((m % 10) as int)])
            == fold_digits(acc, head) * 10 + m % 10);
        assert((acc * pow10_len(m / 10) + m / 10) * 10 + m % 10 == acc * (pow10_len(m / 10) * 10)
            + m) by (nonlinear_arith);
    }
}

/// Ten to the number of digits of `m`.
pub open spec fn pow10_len(m: nat) -> nat
    decreases m,
{
    if m < 10 {
        10
    } else {
        pow10_len(m / 10) * 10
    }
}

/// A digit run rendered into the input parses back to its value.
proof fn lemma_parse_digits_run(s: Seq<char>, i: int, j: int, acc: nat)
    requires
        0 <= i <= j <= s.len(),
        forall|t: int| i <= t < j ==> is_digit(s[t]),
        j < s.len() ==> !is_digit(s[j]),
    ensures
        parse_digits(s, i, acc) == (fold_digits(acc, s.subrange(i, j)), j),
    decreases j - i,
{
    if i == j {
        assert(s.subrange(i, j) =~= Seq::<char>::empty());
        if i < s.len() {
            assert(!is_digit(s[i]));
        }
    } else {
        assert(is_digit(s[i]));
        lemma_parse_digits_run(s, i + 1, j, (acc * 10 + digit_val(s[i])) as nat);
        assert(s.subrange(i, j).drop_first() =~= s.subrange(i + 1, j));
        assert(s.subrange(i, j)[0] == s[i]);
    }
}

/// An integer rendered into the input parses back to itself.
proof fn lemma_parse_int_render(s: Seq<char>, i: int, v: int)
    requires
        i64::MIN <= v <= i64::MAX,
        0 <= i,
        i + render_int(v).len() <= s.len(),
        s.subrange(i, i + render_int(v).len()) == render_int(v),
        i + render_int(v).len() < s.len() ==> !is_digit(s[i + render_int(v).len()]),
    ensures
        parse_int(s, i) == Some((v, i + render_int(v).len())),
{
    let l = render_int(v).len() as int;
    assert forall|t: int| 0 <= t < l implies s[i + t] == render_int(v)[t] by {
        assert(s.subrange(i, i + l)[t] == s[i + t]);
    }
    if v < 0 {
        let m = (-v) as nat;
        lemma_dec_digits_are_digits(m);
        let dl = dec_digits(m).len() as int;
        assert(s[i] == render_int(v)[0]);
        assert(render_int(v)[0] == '-');
        assert forall|t: int| i + 1 <= t < i + 1 + dl implies is_digit(s[t]) by {
            assert(s[t] == render_int(v)[t - i]);
            assert(render_int(v)[t - i] == dec_digits(m)[t - i - 1]);
        }
        assert(is_digit(s[i + 1]));
        lemma_parse_digits_run(s, i + 1, i + 1 + dl, 0);
        assert(s.subrange(i + 1, i + 1 + dl) =~= dec_digits(m)) by {
            assert forall|t: int| 0 <= t < dl implies s[i + 1 + t] == dec_digits(m)[t] by {
                assert(s[i + 1 + t] == render_int(v)[1 + t]);
            }
        }
        lemma_fold_dec_digits(m);
        assert(m <= 9223372036854775808);
    } else {
        let m = v as nat;
        lemma_dec_digits_are_digits(m);
        let dl = dec_digits(m).len() as int;
        assert(s[i] == render_int(v)[0]);
        assert(render_int(v)[0] == dec_digits(m)[0]);
        assert(is_digit(s[i]));
        assert(s[i] != '-');
        assert forall|t: int| i <= t < i + dl implies is_digit(s[t]) by {
            assert(s[t] == render_int(v)[t - i]);
        }
        lemma_parse_digits_run(s, i, i + dl, 0);
        assert(s.subrange(i, i + dl) =~= dec_digits(m)) by {
            assert forall|t: int| 0 <= t < dl implies s[i + t] == dec_digits(m)[t] by {
                assert(s[i + t] == render_int(v)[t]);
            }
        }
        lemma_fold_dec_digits(m);
        assert(m <= 9223372036854775807);
    }
}

/// Control characters survive the hex escape.
proof fn lemma_hex_round(c: char)
    requires
        (c as int) < 32,
    ensures
        hex_val(hex_char((c as int) / 16)) == (c as int) / 16,
        hex_val(hex_char((c as int) % 16)) == (c as int) % 16,
        hex_val('0') == 0,
        ((c as int) / 16) * 16 + (c as int) % 16 == c as int,
        (c as int) as char == c,
{
    assert((c as int) >= 0);
}

/// A string body rendered into the input, closing quote included, parses
/// back to its characters.
#[verifier::rlimit(60)]
proof fn lemma_parse_string_render(s: Seq<char>, i: int, content: Seq<char>)
    requires
        0 <= i,
        i + escape_str(content).len() + 1 <= s.len(),
        s.subrange(i, i + escape_str(content).len() + 1) == escape_str(content) + seq!['"'],
    ensures
        parse_string_body(s, i) == Some((content, i + escape_str(content).len() + 1)),
    decreases content.len(),
{
    let el = escape_str(content).len() as int;
    if content.len() == 0 {
        assert(s[i] == (escape_str(content) + seq!['"'])[0]);
        assert(s[i] == '"');
    } else {
        let c = content[0];
        let rest = content.drop_first();
        let ec = escape_char(c);
        let ecl = ec.len() as int;
        assert(escape_str(content) == ec + escape_str(rest));
        assert forall|t: int| 0 <= t < ecl implies s[i + t] == ec[t] by {
            assert(s[i + t] == (escape_str(content) + seq!['"'])[t]);
        }
        assert(s.subrange(i + ecl, i + ecl + escape_str(rest).len() + 1) =~= escape_str(rest)
            + seq!['"']) by {
            assert forall|t: int| 0 <= t < escape_str(rest).len() + 1 implies s[i + ecl + t] == (
            escape_str(rest) + seq!['"'])[t] by {
                assert(s[i + ecl + t] == (escape_str(content) + seq!['"'])[ecl + t]);
            }
        }
        lemma_parse_string_render(s, i + ecl, rest);
        if c == '"' {
            assert(s[i] == '\\' && s[i + 1] == '"');
            assert(seq![c] + rest =~= content);
        } else if c == '\\' {
            assert(s[i] == '\\' && s[i + 1] == '\\');
            assert(seq![c] + rest =~= content);
        } else if (c as int) < 32 {
            assert(s[i] == '\\' && s[i + 1] == 'u' && s[i + 2] == '0' && s[i + 3] == '0');
            let hi = (c as int) / 16;
            let lo = (c as int) % 16;
            assert(s[i + 4] == hex_char(hi) && s[i + 5] == hex_char(lo));
            lemma_hex_round(c);
            assert(hex_val(s[i + 2]) == 0 && hex_val(s[i + 3]) == 0);
            let code = hex_val(s[i + 2]) * 4096 + hex_val(s[i + 3]) * 256 + hex_val(s[i + 4]) * 16
                + hex_val(s[i + 5]);
            assert(code == c as int);
            assert(!(55296 <= code <= 57343));
            assert(code as char == c);
            assert(seq![c] + rest =~= content);
        } else {
            assert(ec =~= seq![c]);
            assert(s[i + 0] == ec[0]);
            assert(s[i] == c);
            assert(s[i] != '"' && s[i] != '\\' && !((s[i] as int) < 32));
            assert(seq![c] + rest =~= content);
        }
    }
}

/// A rendering is never empty and never starts with a closing bracket,
/// a closing brace, a comma or a colon.
proof fn lemma_render_first(j: Jv)
    ensures
        render_jv(j).len() >= 1,
        render_jv(j)[0] != ']',
        render_jv(j)[0] != '}',
        render_jv(j)[0] != ',',
        render_jv(j)[0] != ':',
{
    match j {
        Jv::Int(i) => {
            if i < 0 {
            } else {
                lemma_dec_digits_are_digits(i as nat);
                assert(is_digit(render_jv(j)[0]));
            }
        },
        _ => {},
    }
}

/// Render then parse gives the value back: a value rendered into the
/// input at `i` parses to itself, given fuel beyond its length.
#[verifier::rlimit(100)]
pub proof fn lemma_parse_render_value(s: Seq<char>, i: int, j: Jv, fuel: nat)
    requires
        jv_i64(j),
        0 <= i,
        i + render_jv(j).len() <= s.len(),
        s.subrange(i, i + render_jv(j).len()) == render_jv(j),
        i + render_jv(j).len() < s.len() ==> !is_digit(s[i + render_jv(j).len()]),
        fuel >= render_jv(j).len() + 1,
    ensures
        parse_value_at(s, i, fuel) == Some((j, i + render_jv(j).len())),
    decreases j,
{
    let r = render_jv(j);
    let l = r.len() as int;
    assert forall|t: int| 0 <= t < l implies s[i + t] == r[t] by {
        assert(s.subrange(i, i + l)[t] == s[i + t]);
    }
    lemma_render_first(j);
    match j {
        Jv::Null => {
            assert(s[i] == r[0]);
            assert(s[i] == 'n');
            assert(s.subrange(i, i + 4) =~= seq!['n', 'u', 'l', 'l']);
            assert(parse_value_at(s, i, fuel) =~~= Some((j, i + render_jv(j).len() as int)));
        },
        Jv::Bool(b) => {
            if b {
                assert(s[i] == r[0]);
                assert(s[i] == 't');
                assert(s.subrange(i, i + 4) =~= seq!['t', 'r', 'u', 'e']);
            } else {
                assert(s[i] == r[0]);
                assert(s[i] == 'f');
                assert(s.subrange(i, i + 5) =~= seq!['f', 'a', 'l', 's', 'e']);
                assert(s[i] != 't' && s[i] != 'n');
            }
            assert(parse_value_at(s, i, fuel) =~~= Some((j, i + render_jv(j).len() as int)));
        },
        Jv::Int(v) => {
            lemma_parse_int_render(s, i, v);
            if v < 0 {
                assert(s[i] == '-');
                assert(s[i] != 'n' && s[i] != 't' && s[i] != 'f' && s[i] != '"' && s[i] != '['
                    && s[i] != '{');
            } else {
                lemma_dec_digits_are_digits(v as nat);
                assert(is_digit(s[i]));
                assert(s[i] != 'n' && s[i] != 't' && s[i] != 'f' && s[i] != '"' && s[i] != '['
                    && s[i] != '{');
            }
            assert(parse_value_at(s, i, fuel) =~~= Some((j, i + render_jv(j).len() as int)));
        },
        Jv::Str(cs) => {
            assert(s[i] == r[0]);
            assert(r =~= seq!['"'] + escape_str(cs) + seq!['"']);
            assert(s[i] == '"');
            assert(s.subrange(i + 1, i + 1 + escape_str(cs).len() + 1) =~= escape_str(cs) + seq![
                '"',
            ]) by {
                assert forall|t: int| 0 <= t < escape_str(cs).len() + 1 implies s[i + 1 + t] == (
                escape_str(cs) + seq!['"'])[t] by {
                    assert(s[i + 1 + t] == r[1 + t]);
                    assert(r =~= seq!['"'] + escape_str(cs) + seq!['"']);
                }
            }
            lemma_parse_string_render(s, i + 1, cs);
            assert(parse_value_at(s, i, fuel) =~~= Some((j, i + render_jv(j).len() as int)));
        },
        Jv::Arr(es) => {
            assert(s[i] == r[0]);
            assert(s[i] == '[');
            if es.len() == 0 {
                assert(render_elems(es) =~= Seq::<char>::empty());
                assert(r =~= seq!['[', ']']);
                assert(s[i + 1] == r[1]);
                assert(s[i + 1] == ']');
                assert(es =~= Seq::<Jv>::empty());
                assert(Jv::Arr(es) =~~= Jv::Arr(Seq::<Jv>::empty()));
            } else {
                lemma_render_first(es[0]);
                assert(s[i + 1] == r[1]);
                assert(r[1] == render_elems(es)[0]);
                assert(render_elems(es)[0] == render_jv(es[0])[0]);
                assert(s[i + 1] != ']');
                assert(s.subrange(i + 1, i + 1 + render_elems(es).len()) =~= render_elems(es)) by {
                    assert forall|t: int| 0 <= t < render_elems(es).len() implies s[i + 1 + t]
                        == render_elems(es)[t] by {
                        assert(s[i + 1 + t] == r[1 + t]);
                    }
                }
                assert(s[i + 1 + render_elems(es).len()] == r[1 + render_elems(es).len() as int]);
                assert(r[1 + render_elems(es).len() as int] == ']');
                lemma_parse_render_elems(s, i + 1, es, (fuel - 1) as nat);
            }
            assert(parse_value_at(s, i, fuel) =~~= Some((j, i + render_jv(j).len() as int)));
        },
        Jv::Obj(ms) => {
            assert(s[i] == r[0]);
            assert(s[i] == '{');
            if ms.len() == 0 {
                assert(render_members(ms) =~= Seq::<char>::empty());
                assert(r =~= seq!['{', '}']);
                assert(s[i + 1] == r[1]);
                assert(s[i + 1] == '}');
                assert(ms =~= Seq::<(Seq<char>, Jv)>::empty());
                assert(Jv::Obj(ms) =~~= Jv::Obj(Seq::<(Seq<char>, Jv)>::empty()));
            } else {
                assert(s[i + 1] == r[1]);
                assert(r[1] == render_members(ms)[0]);
                assert(render_members(ms)[0] == '"');
                assert(s[i + 1] != '}');
                assert(s.subrange(i + 1, i + 1 + render_members(ms).len()) =~= render_members(ms))
                    by {
                    assert forall|t: int| 0 <= t < render_members(ms).len() implies s[i + 1 + t]
                        == render_members(ms)[t] by {
                        assert(s[i + 1 + t] == r[1 + t]);
                    }
                }
                assert(s[i + 1 + render_members(ms).len()] == r[1 + render_members(ms).len() as int]);
                assert(r[1 + render_members(ms).len() as int] == '}');
                lemma_parse_render_members(s, i + 1, ms, (fuel - 1) as nat);
            }
            assert(parse_value_at(s, i, fuel) =~~= Some((j, i + render_jv(j).len() as int)));
        },
    }
}

/// Elements rendered into the input, with the closing bracket after them,
/// parse back to themselves.
#[verifier::rlimit(100)]
proof fn lemma_parse_render_elems(s: Seq<char>, i: int, es: Seq<Jv>, fuel: nat)
    requires
        jv_i64_elems(es),
        es.len() >= 1,
        0 <= i,
        i + render_elems(es).len() + 1 <= s.len(),
        s.subrange(i, i + render_elems(es).len()) == render_elems(es),
        s[i + render_elems(es).len()] == ']',
        fuel >= render_elems(es).len() + 2,
    ensures
        parse_elems(s, i, fuel) == Some((es, i + render_elems(es).len() + 1)),
    decreases es,
{
    let r = render_elems(es);
    let l = r.len() as int;
    assert forall|t: int| 0 <= t < l implies s[i + t] == r[t] by {
        assert(s.subrange(i, i + l)[t] == s[i + t]);
    }
    let e0 = render_jv(es[0]);
    let l0 = e0.len() as int;
    assert(s.subrange(i, i + l0) =~= e0) by {
        assert forall|t: int| 0 <= t < l0 implies s[i + t] == e0[t] by {
            if es.len() == 1 {
            } else {
                assert(r[t] == (e0 + seq![','] + render_elems(es.subrange(1, es.len() as int)))[
                    t]);
            }
        }
    }
    if es.len() == 1 {
        assert(s[i + l0] == ']');
        assert(!is_digit(s[i + l0]));
        lemma_parse_render_value(s, i, es[0], (fuel - 1) as nat);
        assert(seq![es[0]] =~= es);
    } else {
        let rest = es.subrange(1, es.len() as int);
        assert(s[i + l0] == r[l0]);
        assert(r[l0] == ',');
        assert(!is_digit(s[i + l0]));
        lemma_parse_render_value(s, i, es[0], (fuel - 1) as nat);
        assert(s.subrange(i + l0 + 1, i + l0 + 1 + render_elems(rest).len()) =~= render_elems(
            rest,
        )) by {
            assert forall|t: int| 0 <= t < render_elems(rest).len() implies s[i + l0 + 1 + t]
                == render_elems(rest)[t] by {
                assert(s[i + l0 + 1 + t] == r[l0 + 1 + t]);
            }
        }
        assert(s[i + l0 + 1 + render_elems(rest).len()] == ']');
        lemma_parse_render_elems(s, i + l0 + 1, rest, (fuel - 1) as nat);
        assert(seq![es[0]] + rest =~= es);
    }
}

/// Members rendered into the input, with the closing brace after them,
/// parse back to themselves.
#[verifier::rlimit(100)]
proof fn lemma_parse_render_members(s: Seq<char>, i: int, ms: Seq<(Seq<char>, Jv)>, fuel: nat)
    requires
        jv_i64_members(ms),
        ms.len() >= 1,
        0 <= i,
        i + render_members(ms).len() + 1 <= s.len(),
        s.subrange(i, i + render_members(ms).len()) == render_members(ms),
        s[i + render_members(ms).len()] == '}',
        fuel >= render_members(ms).len() + 2,
    ensures
        parse_members(s, i, fuel) == Some((ms, i + render_members(ms).len() + 1)),
    decreases ms,
{
    let r = render_members(ms);
    let l = r.len() as int;
    assert forall|t: int| 0 <= t < l implies s[i + t] == r[t] by {
        assert(s.subrange(i, i + l)[t] == s[i + t]);
    }
    let k0 = ms[0].0;
    let v0 = ms[0].1;
    let head = seq!['"'] + escape_str(k0) + seq!['"', ':'] + render_jv(v0);
    let hl = head.len() as int;
    let kl = escape_str(k0).len() as int;
    let vl = render_jv(v0).len() as int;
    assert forall|t: int| 0 <= t < hl implies s[i + t] == head[t] by {
        if ms.len() == 1 {
            assert(r[t] == head[t]);
        } else {
            assert(r[t] == (head + seq![','] + render_members(ms.subrange(1, ms.len() as int)))[
                t]);
        }
    }
    assert(s[i] == head[0]);
    assert(head[0] == '"');
    assert(s.subrange(i + 1, i + 1 + kl + 1) =~= escape_str(k0) + seq!['"']) by {
        assert forall|t: int| 0 <= t < kl + 1 implies s[i + 1 + t] == (escape_str(k0) + seq!['"'])[
            t] by {
            assert(s[i + 1 + t] == head[1 + t]);
        }
    }
    lemma_parse_string_render(s, i + 1, k0);
    let jpos = i + 1 + kl + 1;
    assert(s[jpos] == head[jpos - i]);
    assert(head[2 + kl] == ':');
    assert(s.subrange(jpos + 1, jpos + 1 + vl) =~= render_jv(v0)) by {
        assert forall|t: int| 0 <= t < vl implies s[jpos + 1 + t] == render_jv(v0)[t] by {
            assert(s[jpos + 1 + t] == head[3 + kl + t]);
        }
    }
    if ms.len() == 1 {
        assert(s[jpos + 1 + vl] == '}');
        assert(!is_digit(s[jpos + 1 + vl]));
        lemma_parse_render_value(s, jpos + 1, v0, (fuel - 1) as nat);
        assert(seq![(k0, v0)] =~= ms);
    } else {
        let rest = ms.subrange(1, ms.len() as int);
        assert(s[jpos + 1 + vl] == r[hl]);
        assert(r[hl] == ',');
        assert(!is_digit(s[jpos + 1 + vl]));
        lemma_parse_render_value(s, jpos + 1, v0, (fuel - 1) as nat);
        let rl = render_members(rest).len() as int;
        assert(s.subrange(jpos + 1 + vl + 1, jpos + 1 + vl + 1 + rl) =~= render_members(rest)) by {
            assert forall|t: int| 0 <= t < rl implies s[jpos + 1 + vl + 1 + t] == render_members(
                rest,
            )[t] by {
                assert(s[jpos + 1 + vl + 1 + t] == r[hl + 1 + t]);
            }
        }
        assert(s[jpos + 1 + vl + 1 + rl] == '}');
        lemma_parse_render_members(s, jpos + 1 + vl + 1, rest, (fuel - 1) as nat);
        assert(seq![(k0, v0)] + rest =~= ms);
    }
}

/// The escaped form of one character carries no raw newline.
proof fn lemma_escape_char_no_newline(c: char)
    ensures
        forall|t: int| 0 <= t < escape_char(c).len() ==> escape_char(c)[t] != '\n',
{
    let ec = escape_char(c);
    assert forall|t: int| 0 <= t < ec.len() implies ec[t] != '\n' by {
        if c == '"' || c == '\\' {
        } else if (c as int) < 32 {
            let ci = c as int;
            assert(ci >= 0);
            assert(ci < 32);
            assert(ci / 16 < 10);
            assert(hex_char(ci / 16) == digit_char(ci / 16));
            assert(digit_char(ci / 16) as int == 48 + ci / 16);
            assert(0 <= ci % 16 < 16);
            if ci % 16 < 10 {
                assert(hex_char(ci % 16) as int == 48 + ci % 16);
            } else {
                assert(hex_char(ci % 16) as int == 87 + ci % 16);
            }
        } else {
            assert(ec[t] == c);
            assert((c as int) >= 32);
        }
    }
}

/// No escaped string body carries a raw newline.
proof fn lemma_escape_no_newline(s: Seq<char>)
    ensures
        forall|t: int| 0 <= t < escape_str(s).len() ==> escape_str(s)[t] != '\n',
    decreases s.len(),
{
    if s.len() > 0 {
        lemma_escape_no_newline(s.drop_first());
        let ec = escape_char(s[0]);
        lemma_escape_char_no_newline(s[0]);
        assert forall|t: int| 0 <= t < escape_str(s).len() implies escape_str(s)[t] != '\n' by {
            assert(escape_str(s) == ec + escape_str(s.drop_first()));
            if t < ec.len() {
                assert(escape_str(s)[t] == ec[t]);
            } else {
                assert(escape_str(s)[t] == escape_str(s.drop_first())[t - ec.len()]);
            }
        }
    }
}

/// No decimal rendering carries a newline.
proof fn lemma_int_no_newline(v: int)
    ensures
        forall|t: int| 0 <= t < render_int(v).len() ==> render_int(v)[t] != '\n',
{
    if v < 0 {
        lemma_dec_digits_are_digits((-v) as nat);
        assert forall|t: int| 0 <= t < render_int(v).len() implies render_int(v)[t] != '\n' by {
            if t > 0 {
                assert(render_int(v)[t] == dec_digits((-v) as nat)[t - 1]);
                assert(is_digit(dec_digits((-v) as nat)[t - 1]));
            }
        }
    } else {
        lemma_dec_digits_are_digits(v as nat);
        assert forall|t: int| 0 <= t < render_int(v).len() implies render_int(v)[t] != '\n' by {
            assert(is_digit(render_int(v)[t]));
        }
    }
}

/// No rendered value carries a raw newline: line-oriented storage can
/// frame one rendering per line.
pub proof fn lemma_render_no_newline(j: Jv)
    ensures
        forall|t: int| 0 <= t < render_jv(j).len() ==> render_jv(j)[t] != '\n',
    decreases j,
{
    let r = render_jv(j);
    match j {
        Jv::Null => {
        },
        Jv::Bool(_) => {
        },
        Jv::Int(v) => {
            lemma_int_no_newline(v);
        },
        Jv::Str(s) => {
            lemma_escape_no_newline(s);
            assert forall|t: int| 0 <= t < r.len() implies r[t] != '\n' by {
                assert(r == seq!['"'] + escape_str(s) + seq!['"']);
                if 1 <= t < 1 + escape_str(s).len() {
                    assert(r[t] == escape_str(s)[t - 1]);
                }
            }
        },
        Jv::Arr(es) => {
            lemma_elems_no_newline(es);
            assert forall|t: int| 0 <= t < r.len() implies r[t] != '\n' by {
                assert(r == seq!['['] + render_elems(es) + seq![']']);
                if 1 <= t < 1 + render_elems(es).len() {
                    assert(r[t] == render_elems(es)[t - 1]);
                }
            }
        },
        Jv::Obj(ms) => {
            lemma_members_no_newline(ms);
            assert forall|t: int| 0 <= t < r.len() implies r[t] != '\n' by {
                assert(r == seq!['{'] + render_members(ms) + seq!['}']);
                if 1 <= t < 1 + render_members(ms).len() {
                    assert(r[t] == render_members(ms)[t - 1]);
                }
            }
        },
    }
}

/// No rendered element list carries a raw newline.
proof fn lemma_elems_no_newline(es: Seq<Jv>)
    ensures
        forall|t: int| 0 <= t < render_elems(es).len() ==> render_elems(es)[t] != '\n',
    decreases es,
{
    if es.len() == 0 {
    } else if es.len() == 1 {
        lemma_render_no_newline(es[0]);
        assert(render_elems(es) == render_jv(es[0]));
        assert forall|t: int|
            0 <= t < render_elems(es).len() implies render_elems(es)[t] != '\n' by {
            assert(render_elems(es)[t] == render_jv(es[0])[t]);
        }
    } else {
        lemma_render_no_newline(es[0]);
        let rest = es.subrange(1, es.len() as int);
        lemma_elems_no_newline(rest);
        let head = render_jv(es[0]);
        assert forall|t: int|
            0 <= t < render_elems(es).len() implies render_elems(es)[t] != '\n' by {
            assert(render_elems(es) == head + seq![','] + render_elems(rest));
            if t < head.len() {
                assert(render_elems(es)[t] == head[t]);
            } else if t > head.len() {
                assert(render_elems(es)[t] == render_elems(rest)[t - head.len() - 1]);
            }
        }
    }
}

/// No rendered member list carries a raw newline.
proof fn lemma_members_no_newline(ms: Seq<(Seq<char>, Jv)>)
    ensures
        forall|t: int| 0 <= t < render_members(ms).len() ==> render_members(ms)[t] != '\n',
    decreases ms,
{
    if ms.len() == 0 {
    } else {
        lemma_render_no_newline(ms[0].1);
        lemma_escape_no_newline(ms[0].0);
        let head = seq!['"'] + escape_str(ms[0].0) + seq!['"', ':'] + render_jv(ms[0].1);
        assert forall|t: int| 0 <= t < head.len() implies head[t] != '\n' by {
            let kl = escape_str(ms[0].0).len() as int;
            if 1 <= t < 1 + kl {
                assert(head[t] == escape_str(ms[0].0)[t - 1]);
            } else if t >= 3 + kl {
                assert(head[t] == render_jv(ms[0].1)[t - 3 - kl]);
            }
        }
        if ms.len() == 1 {
            assert(render_members(ms) == head);
        } else {
            let rest = ms.subrange(1, ms.len() as int);
            lemma_members_no_newline(rest);
            assert forall|t: int|
                0 <= t < render_members(ms).len() implies render_members(ms)[t] != '\n' by {
                assert(render_members(ms) == head + seq![','] + render_members(rest));
                if t < head.len() {
                    assert(render_members(ms)[t] == head[t]);
                } else if t > head.len() {
                    assert(render_members(ms)[t] == render_members(rest)[t - head.len() - 1]);
                }
            }
        }
    }
}

/// The whole-document round trip: parsing a rendered value gives it back.
pub proof fn lemma_parse_render_round_trip(j: Jv)
    requires
        jv_i64(j),
    ensures
        parse_text_spec(render_jv(j)) == Some(j),
{
    let s = render_jv(j);
    assert(s.subrange(0, s.len() as int) =~= s);
    lemma_parse_render_value(s, 0, j, (s.len() + 1) as nat);
}

/// Render a value as a single-line document.
pub fn render_value(v: &ConfigValue) -> (r: String)
    ensures
        r@ == render_jv(v.dv()),
{
    let mut out = String::new();
    push_value(&mut out, v);
    proof {
        assert(Seq::<char>::empty() + render_jv(v.dv()) =~= render_jv(v.dv()));
    }
    out
}

} // verus!
