//! A JSON-like value type and a parser for it, specified by recursive
//! spec functions over the character sequence. Numbers are kept as their
//! literal text; the parser is tolerant only in that it never panics:
//! malformed text parses to `None`.

use vstd::prelude::*;

verus! {

/// Mathematical model of a parsed value.
pub enum ValueModel {
    Null,
    Bool(bool),
    Num(Seq<char>),
    Str(Seq<char>),
    Arr(Seq<ValueModel>),
    Obj(Seq<(Seq<char>, ValueModel)>),
}

/// A parsed value: one of the standard JSON kinds. Object members keep
/// their source order; numbers keep their literal spelling.
pub enum Value {
    Null,
    Bool(bool),
    Num(Vec<char>),
    Str(Vec<char>),
    Arr(Vec<Value>),
    Obj(Vec<(Vec<char>, Value)>),
}

impl Value {
    /// The mathematical value this tree stands for.
    pub open spec fn deep(self) -> ValueModel
        decreases self,
    {
        match self {
            Value::Null => ValueModel::Null,
            Value::Bool(b) => ValueModel::Bool(b),
            Value::Num(s) => ValueModel::Num(s@),
            Value::Str(s) => ValueModel::Str(s@),
            Value::Arr(a) => ValueModel::Arr(deep_seq(a@)),
            Value::Obj(m) => ValueModel::Obj(deep_members(m@)),
        }
    }
}

/// The models of a sequence of values, element by element.
pub open spec fn deep_seq(s: Seq<Value>) -> Seq<ValueModel>
    decreases s,
{
    if s.len() == 0 {
        Seq::empty()
    } else {
        seq![s[0].deep()] + deep_seq(s.drop_first())
    }
}

/// The models of a sequence of object members, element by element.
pub open spec fn deep_members(s: Seq<(Vec<char>, Value)>) -> Seq<(Seq<char>, ValueModel)>
    decreases s,
{
    if s.len() == 0 {
        Seq::empty()
    } else {
        seq![(s[0].0@, s[0].1.deep())] + deep_members(s.drop_first())
    }
}

pub proof fn lemma_deep_seq_push(s: Seq<Value>, x: Value)
    ensures
        deep_seq(s.push(x)) == deep_seq(s).push(x.deep()),
    decreases s.len(),
{
    let w = s.push(x);
    if s.len() == 0 {
        assert(w.drop_first() =~= Seq::<Value>::empty());
        assert(w[0] == x);
        assert(deep_seq(w.drop_first()) == Seq::<ValueModel>::empty());
        assert(seq![x.deep()] + Seq::<ValueModel>::empty() =~= deep_seq(s).push(x.deep()));
    } else {
        assert(w.drop_first() =~= s.drop_first().push(x));
        lemma_deep_seq_push(s.drop_first(), x);
        assert(w[0] == s[0]);
        assert(deep_seq(w) == seq![s[0].deep()] + deep_seq(s.drop_first()).push(x.deep()));
        assert(deep_seq(s) == seq![s[0].deep()] + deep_seq(s.drop_first()));
        assert(seq![s[0].deep()] + deep_seq(s.drop_first()).push(x.deep()) =~= (seq![s[0].deep()]
            + deep_seq(s.drop_first())).push(x.deep()));
    }
}

pub proof fn lemma_deep_members_push(s: Seq<(Vec<char>, Value)>, x: (Vec<char>, Value))
    ensures
        deep_members(s.push(x)) == deep_members(s).push((x.0@, x.1.deep())),
    decreases s.len(),
{
    let w = s.push(x);
    if s.len() == 0 {
        assert(w.drop_first() =~= Seq::<(Vec<char>, Value)>::empty());
        assert(w[0] == x);
        assert(deep_members(w.drop_first()) == Seq::<(Seq<char>, ValueModel)>::empty());
        assert(seq![(x.0@, x.1.deep())] + Seq::<(Seq<char>, ValueModel)>::empty()
            =~= deep_members(s).push((x.0@, x.1.deep())));
    } else {
        assert(w.drop_first() =~= s.drop_first().push(x));
        lemma_deep_members_push(s.drop_first(), x);
        assert(w[0] == s[0]);
        assert(deep_members(w) == seq![(s[0].0@, s[0].1.deep())] + deep_members(
            s.drop_first(),
        ).push((x.0@, x.1.deep())));
        assert(deep_members(s) == seq![(s[0].0@, s[0].1.deep())] + deep_members(s.drop_first()));
        assert(seq![(s[0].0@, s[0].1.deep())] + deep_members(s.drop_first()).push((
            x.0@,
            x.1.deep(),
        )) =~= (seq![(s[0].0@, s[0].1.deep())] + deep_members(s.drop_first())).push((
            x.0@,
            x.1.deep(),
        )));
    }
}

pub proof fn lemma_deep_seq(s: Seq<Value>)
    ensures
        deep_seq(s).len() == s.len(),
        forall|i: int| 0 <= i < s.len() ==> deep_seq(s)[i] == s[i].deep(),
    decreases s.len(),
{
    if s.len() > 0 {
        lemma_deep_seq(s.drop_first());
    }
}

pub proof fn lemma_deep_members(s: Seq<(Vec<char>, Value)>)
    ensures
        deep_members(s).len() == s.len(),
        forall|i: int|
            0 <= i < s.len() ==> deep_members(s)[i] == (s[i].0@, s[i].1.deep()),
    decreases s.len(),
{
    if s.len() > 0 {
        lemma_deep_members(s.drop_first());
    }
}

// ---------------------------------------------------------------------------
// Character classes
// ---------------------------------------------------------------------------

pub open spec fn is_ws(c: char) -> bool {
    c == ' ' || c == '\t' || c == '\n' || c == '\r'
}

pub open spec fn is_digit(c: char) -> bool {
    ('0' as u32) <= (c as u32) && (c as u32) <= ('9' as u32)
}

/// Characters that may appear in a number literal. The run is taken
/// greedily and not validated further: the text is kept, never computed on.
pub open spec fn is_num_char(c: char) -> bool {
    is_digit(c) || c == '-' || c == '+' || c == '.' || c == 'e' || c == 'E'
}

pub open spec fn is_hex(c: char) -> bool {
    is_digit(c) || (('a' as u32) <= (c as u32) && (c as u32) <= ('f' as u32)) || (('A' as u32)
        <= (c as u32) && (c as u32) <= ('F' as u32))
}

pub open spec fn hex_val(c: char) -> int {
    if is_digit(c) {
        (c as u32) - ('0' as u32)
    } else if ('a' as u32) <= (c as u32) && (c as u32) <= ('f' as u32) {
        (c as u32) - ('a' as u32) + 10
    } else {
        (c as u32) - ('A' as u32) + 10
    }
}

/// Whether four hexadecimal digits stand at position `i`.
pub open spec fn is_hex4(t: Seq<char>, i: int) -> bool {
    0 <= i && i + 4 <= t.len() && is_hex(t[i]) && is_hex(t[i + 1]) && is_hex(t[i + 2]) && is_hex(
        t[i + 3],
    )
}

/// The value of the four hexadecimal digits at position `i`.
pub open spec fn hex4(t: Seq<char>, i: int) -> int {
    hex_val(t[i]) * 0x1000 + hex_val(t[i + 1]) * 0x100 + hex_val(t[i + 2]) * 0x10
        + hex_val(t[i + 3])
}

pub open spec fn is_high_surrogate(code: int) -> bool {
    0xD800 <= code && code < 0xDC00
}

pub open spec fn is_low_surrogate(code: int) -> bool {
    0xDC00 <= code && code < 0xE000
}

/// The scalar value that a surrogate pair encodes.
pub open spec fn combine_surrogates(hi: int, lo: int) -> int {
    0x10000 + (hi - 0xD800) * 0x400 + (lo - 0xDC00)
}

// ---------------------------------------------------------------------------
// Leaf-level parsing, as spec functions
// ---------------------------------------------------------------------------

/// The first position at or after `i` that holds no whitespace.
pub open spec fn skip_ws(t: Seq<char>, i: int) -> int
    decreases t.len() - i,
{
    if 0 <= i < t.len() && is_ws(t[i]) {
        skip_ws(t, i + 1)
    } else {
        i
    }
}

/// The decoded content of a string literal whose opening quote stands just
/// before `i`, together with the position just past the closing quote.
/// Escapes cover the simple JSON set and `\u` with surrogate pairs; a string
/// that ends without a closing quote, or holds a bad escape, yields `None`.
pub open spec fn parse_string_rest(t: Seq<char>, i: int) -> Option<(Seq<char>, int)>
    decreases t.len() - i,
{
    if !(0 <= i < t.len()) {
        None
    } else if t[i] == '"' {
        Some((Seq::empty(), i + 1))
    } else if t[i] == '\\' {
        if i + 2 > t.len() {
            None
        } else {
            let e = t[i + 1];
            if e == 'u' {
                if !is_hex4(t, i + 2) {
                    None
                } else {
                    let code = hex4(t, i + 2);
                    if is_high_surrogate(code) {
                        if i + 12 <= t.len() && t[i + 6] == '\\' && t[i + 7] == 'u' && is_hex4(
                            t,
                            i + 8,
                        ) && is_low_surrogate(hex4(t, i + 8)) {
                            let scalar = combine_surrogates(code, hex4(t, i + 8));
                            match parse_string_rest(t, i + 12) {
                                Some((s, j)) => Some((seq![(scalar as u32) as char] + s, j)),
                                None => None,
                            }
                        } else {
                            None
                        }
                    } else if is_low_surrogate(code) {
                        None
                    } else {
                        match parse_string_rest(t, i + 6) {
                            Some((s, j)) => Some((seq![(code as u32) as char] + s, j)),
                            None => None,
                        }
                    }
                }
            } else {
                match simple_escape(e) {
                    Some(c) => match parse_string_rest(t, i + 2) {
                        Some((s, j)) => Some((seq![c] + s, j)),
                        None => None,
                    },
                    None => None,
                }
            }
        }
    } else {
        match parse_string_rest(t, i + 1) {
            Some((s, j)) => Some((seq![t[i]] + s, j)),
            None => None,
        }
    }
}

/// What a single-character escape stands for.
pub open spec fn simple_escape(e: char) -> Option<char> {
    if e == '"' {
        Some('"')
    } else if e == '\\' {
        Some('\\')
    } else if e == '/' {
        Some('/')
    } else if e == 'n' {
        Some('\n')
    } else if e == 't' {
        Some('\t')
    } else if e == 'r' {
        Some('\r')
    } else if e == 'b' {
        Some('\u{8}')
    } else if e == 'f' {
        Some('\u{c}')
    } else {
        None
    }
}

/// The maximal run of number characters starting at `i`, and the position
/// just past it.
pub open spec fn num_run(t: Seq<char>, i: int) -> (Seq<char>, int)
    decreases t.len() - i,
{
    if 0 <= i < t.len() && is_num_char(t[i]) {
        let (s, j) = num_run(t, i + 1);
        (seq![t[i]] + s, j)
    } else {
        (Seq::empty(), i)
    }
}

/// Whether the literal `lit` stands at position `i` of `t`.
pub open spec fn has_lit(t: Seq<char>, i: int, lit: Seq<char>) -> bool {
    0 <= i && i + lit.len() <= t.len() && t.subrange(i, i + lit.len()) == lit
}

// ---------------------------------------------------------------------------
// Value parsing, as spec functions
// ---------------------------------------------------------------------------
// The three functions below are mutually recursive and take a fuel that
// bounds the recursion. Since every recursive step consumes at least one
// character, a fuel of one more than the text's length never runs out, and
// `spec_parse_text` passes exactly that.

/// The value starting at `i` (after any whitespace), and the position just
/// past it.
pub open spec fn parse_value(t: Seq<char>, i: int, fuel: nat) -> Option<(ValueModel, int)>
    decreases fuel,
{
    if fuel == 0 {
        None
    } else {
        let j = skip_ws(t, i);
        if !(0 <= j < t.len()) {
            None
        } else {
            let c = t[j];
            if c == '{' {
                match parse_members(t, skip_ws(t, j + 1), true, (fuel - 1) as nat) {
                    Some((ms, k)) => Some((ValueModel::Obj(ms), k)),
                    None => None,
                }
            } else if c == '[' {
                match parse_elems(t, skip_ws(t, j + 1), true, (fuel - 1) as nat) {
                    Some((es, k)) => Some((ValueModel::Arr(es), k)),
                    None => None,
                }
            } else if c == '"' {
                match parse_string_rest(t, j + 1) {
                    Some((s, k)) => Some((ValueModel::Str(s), k)),
                    None => None,
                }
            } else if c == 't' {
                if has_lit(t, j, "true"@) {
                    Some((ValueModel::Bool(true), j + 4))
                } else {
                    None
                }
            } else if c == 'f' {
                if has_lit(t, j, "false"@) {
                    Some((ValueModel::Bool(false), j + 5))
                } else {
                    None
                }
            } else if c == 'n' {
                if has_lit(t, j, "null"@) {
                    Some((ValueModel::Null, j + 4))
                } else {
                    None
                }
            } else if is_digit(c) || c == '-' {
                let (s, k) = num_run(t, j);
                Some((ValueModel::Num(s), k))
            } else {
                None
            }
        }
    }
}

/// The members of an object whose opening brace stands before `i`
/// (whitespace already skipped), and the position just past the closing
/// brace. `first` is true until a member has been read, so that only a
/// leading `}` makes an empty object.
pub open spec fn parse_members(t: Seq<char>, i: int, first: bool, fuel: nat) -> Option<
    (Seq<(Seq<char>, ValueModel)>, int),
>
    decreases fuel,
{
    if fuel == 0 {
        None
    } else if !(0 <= i < t.len()) {
        None
    } else if t[i] == '}' && first {
        Some((Seq::empty(), i + 1))
    } else if t[i] != '"' {
        None
    } else {
        match parse_string_rest(t, i + 1) {
            None => None,
            Some((key, j)) => {
                let k = skip_ws(t, j);
                if !(0 <= k < t.len() && t[k] == ':') {
                    None
                } else {
                    match parse_value(t, k + 1, (fuel - 1) as nat) {
                        None => None,
                        Some((v, m)) => {
                            let p = skip_ws(t, m);
                            if !(0 <= p < t.len()) {
                                None
                            } else if t[p] == ',' {
                                match parse_members(
                                    t,
                                    skip_ws(t, p + 1),
                                    false,
                                    (fuel - 1) as nat,
                                ) {
                                    Some((rest, q)) => Some((seq![(key, v)] + rest, q)),
                                    None => None,
                                }
                            } else if t[p] == '}' {
                                Some((seq![(key, v)], p + 1))
                            } else {
                                None
                            }
                        },
                    }
                }
            },
        }
    }
}

/// The elements of an array whose opening bracket stands before `i`
/// (whitespace already skipped), and the position just past the closing
/// bracket.
pub open spec fn parse_elems(t: Seq<char>, i: int, first: bool, fuel: nat) -> Option<
    (Seq<ValueModel>, int),
>
    decreases fuel,
{
    if fuel == 0 {
        None
    } else if !(0 <= i < t.len()) {
        None
    } else if t[i] == ']' && first {
        Some((Seq::empty(), i + 1))
    } else {
        match parse_value(t, i, (fuel - 1) as nat) {
            None => None,
            Some((v, m)) => {
                let p = skip_ws(t, m);
                if !(0 <= p < t.len()) {
                    None
                } else if t[p] == ',' {
                    match parse_elems(t, skip_ws(t, p + 1), false, (fuel - 1) as nat) {
                        Some((rest, q)) => Some((seq![v] + rest, q)),
                        None => None,
                    }
                } else if t[p] == ']' {
                    Some((seq![v], p + 1))
                } else {
                    None
                }
            },
        }
    }
}

/// The value that `t` holds, read from the front after any whitespace.
/// Text after the value is left uninspected.
pub open spec fn spec_parse_text(t: Seq<char>) -> Option<ValueModel> {
    match parse_value(t, 0, t.len() + 1) {
        Some((v, _)) => Some(v),
        None => None,
    }
}

// ---------------------------------------------------------------------------
// The executable parser, proved equal to the spec functions above
// ---------------------------------------------------------------------------

fn is_ws_exec(c: char) -> (r: bool)
    ensures
        r == is_ws(c),
{
    c == ' ' || c == '\t' || c == '\n' || c == '\r'
}

fn is_digit_exec(c: char) -> (r: bool)
    ensures
        r == is_digit(c),
{
    ('0' as u32) <= (c as u32) && (c as u32) <= ('9' as u32)
}

fn is_num_char_exec(c: char) -> (r: bool)
    ensures
        r == is_num_char(c),
{
    is_digit_exec(c) || c == '-' || c == '+' || c == '.' || c == 'e' || c == 'E'
}

fn is_hex_exec(c: char) -> (r: bool)
    ensures
        r == is_hex(c),
{
    is_digit_exec(c) || (('a' as u32) <= (c as u32) && (c as u32) <= ('f' as u32)) || (('A' as u32)
        <= (c as u32) && (c as u32) <= ('F' as u32))
}

fn hex_val_exec(c: char) -> (r: u32)
    requires
        is_hex(c),
    ensures
        r as int == hex_val(c),
        r < 16,
{
    let u = c as u32;
    if u >= ('a' as u32) {
        u - ('a' as u32) + 10
    } else if u >= ('A' as u32) {
        u - ('A' as u32) + 10
    } else {
        u - ('0' as u32)
    }
}

fn skip_ws_exec(text: &Vec<char>, i: usize) -> (r: usize)
    requires
        i <= text@.len(),
    ensures
        r as int == skip_ws(text@, i as int),
        i <= r <= text@.len(),
{
    let n = text.len();
    let mut j = i;
    while j < n && is_ws_exec(text[j])
        invariant
            i <= j <= n,
            n == text@.len(),
            skip_ws(text@, i as int) == skip_ws(text@, j as int),
        decreases n - j,
    {
        j += 1;
    }
    j
}

fn is_hex4_exec(text: &Vec<char>, i: usize) -> (r: bool)
    requires
        i <= text@.len(),
    ensures
        r == is_hex4(text@, i as int),
{
    if text.len() - i < 4 {
        return false;
    }
    is_hex_exec(text[i]) && is_hex_exec(text[i + 1]) && is_hex_exec(text[i + 2]) && is_hex_exec(
        text[i + 3],
    )
}

fn hex4_exec(text: &Vec<char>, i: usize) -> (r: u32)
    requires
        is_hex4(text@, i as int),
    ensures
        r as int == hex4(text@, i as int),
        r < 0x10000,
{
    let n = text.len();
    hex_val_exec(text[i]) * 0x1000 + hex_val_exec(text[i + 1]) * 0x100 + hex_val_exec(text[i + 2])
        * 0x10 + hex_val_exec(text[i + 3])
}

fn simple_escape_exec(e: char) -> (r: Option<char>)
    ensures
        r == simple_escape(e),
{
    if e == '"' {
        Some('"')
    } else if e == '\\' {
        Some('\\')
    } else if e == '/' {
        Some('/')
    } else if e == 'n' {
        Some('\n')
    } else if e == 't' {
        Some('\t')
    } else if e == 'r' {
        Some('\r')
    } else if e == 'b' {
        Some('\u{8}')
    } else if e == 'f' {
        Some('\u{c}')
    } else {
        None
    }
}

/// Relies on `char::from_u32`: it returns the character with the given
/// code exactly when the code is a Unicode scalar value.
#[verifier::external_body]
fn char_from_u32(code: u32) -> (r: Option<char>)
    ensures
        r is Some <==> vstd::utf8::is_scalar(code),
        r matches Some(c) ==> c as u32 == code,
{
    char::from_u32(code)
}

#[verifier::rlimit(50)]
fn parse_string_exec(text: &Vec<char>, i: usize) -> (r: Option<(Vec<char>, usize)>)
    requires
        i <= text@.len(),
    ensures
        match r {
            Some((s, j)) => parse_string_rest(text@, i as int) == Some((s@, j as int)) && i < j
                <= text@.len(),
            None => parse_string_rest(text@, i as int) is None,
        },
{
    broadcast use vstd::utf8::char_u32_cast;

    let n = text.len();
    let mut cur = i;
    let mut acc: Vec<char> = Vec::new();
    proof {
        if let Some((s, _)) = parse_string_rest(text@, i as int) {
            assert(Seq::<char>::empty() + s =~= s);
        }
    }
    loop
        invariant
            i <= cur <= n,
            n == text@.len(),
            match parse_string_rest(text@, cur as int) {
                Some((s, j)) => parse_string_rest(text@, i as int) == Some((acc@ + s, j)),
                None => parse_string_rest(text@, i as int) is None,
            },
        decreases n - cur,
    {
        if cur >= n {
            return None;
        }
        let c = text[cur];
        if c == '"' {
            proof {
                assert(acc@ + Seq::<char>::empty() =~= acc@);
            }
            return Some((acc, cur + 1));
        } else if c == '\\' {
            if n - cur < 2 {
                return None;
            }
            let e = text[cur + 1];
            if e == 'u' {
                if !is_hex4_exec(text, cur + 2) {
                    return None;
                }
                let code = hex4_exec(text, cur + 2);
                if 0xD800 <= code && code < 0xDC00 {
                    // A high surrogate must pair with a following low one.
                    if n - cur < 12 {
                        return None;
                    }
                    if !(text[cur + 6] == '\\' && text[cur + 7] == 'u') {
                        return None;
                    }
                    if !is_hex4_exec(text, cur + 8) {
                        return None;
                    }
                    let code2 = hex4_exec(text, cur + 8);
                    if !(0xDC00 <= code2 && code2 < 0xE000) {
                        return None;
                    }
                    let scalar = 0x10000 + (code - 0xD800) * 0x400 + (code2 - 0xDC00);
                    let c2 = match char_from_u32(scalar) {
                        Some(c2) => c2,
                        None => {
                            proof {
                                assert(vstd::utf8::is_scalar(scalar));
                            }
                            return None;
                        },
                    };
                    proof {
                        vstd::utf8::char_u32_cast(c2, scalar);
                        assert(combine_surrogates(
                            hex4(text@, cur as int + 2),
                            hex4(text@, cur as int + 8),
                        ) == scalar as int);
                        assert((combine_surrogates(
                            hex4(text@, cur as int + 2),
                            hex4(text@, cur as int + 8),
                        ) as u32) as char == c2);
                        let ghost old_acc = acc@;
                        if let Some((s, _)) = parse_string_rest(text@, cur as int + 12) {
                            assert(old_acc + (seq![c2] + s) =~= old_acc.push(c2) + s);
                        }
                    }
                    acc.push(c2);
                    cur = cur + 12;
                } else if 0xDC00 <= code && code < 0xE000 {
                    return None;
                } else {
                    let c2 = match char_from_u32(code) {
                        Some(c2) => c2,
                        None => {
                            proof {
                                assert(vstd::utf8::is_scalar(code));
                            }
                            return None;
                        },
                    };
                    proof {
                        vstd::utf8::char_u32_cast(c2, code);
                        assert((hex4(text@, cur as int + 2) as u32) as char == c2);
                        let ghost old_acc = acc@;
                        if let Some((s, _)) = parse_string_rest(text@, cur as int + 6) {
                            assert(old_acc + (seq![c2] + s) =~= old_acc.push(c2) + s);
                        }
                    }
                    acc.push(c2);
                    cur = cur + 6;
                }
            } else {
                match simple_escape_exec(e) {
                    Some(c2) => {
                        proof {
                            let ghost old_acc = acc@;
                            if let Some((s, _)) = parse_string_rest(text@, cur as int + 2) {
                                assert(old_acc + (seq![c2] + s) =~= old_acc.push(c2) + s);
                            }
                        }
                        acc.push(c2);
                        cur = cur + 2;
                    },
                    None => {
                        return None;
                    },
                }
            }
        } else {
            proof {
                let ghost old_acc = acc@;
                if let Some((s, _)) = parse_string_rest(text@, cur as int + 1) {
                    assert(old_acc + (seq![c] + s) =~= old_acc.push(c) + s);
                }
            }
            acc.push(c);
            cur = cur + 1;
        }
    }
}

fn num_run_exec(text: &Vec<char>, i: usize) -> (r: (Vec<char>, usize))
    requires
        i <= text@.len(),
    ensures
        num_run(text@, i as int) == (r.0@, r.1 as int),
        i <= r.1 <= text@.len(),
{
    let n = text.len();
    let mut cur = i;
    let mut acc: Vec<char> = Vec::new();
    proof {
        assert(Seq::<char>::empty() + num_run(text@, i as int).0 =~= num_run(text@, i as int).0);
    }
    while cur < n && is_num_char_exec(text[cur])
        invariant
            i <= cur <= n,
            n == text@.len(),
            num_run(text@, i as int).0 == acc@ + num_run(text@, cur as int).0,
            num_run(text@, i as int).1 == num_run(text@, cur as int).1,
        decreases n - cur,
    {
        let c = text[cur];
        proof {
            let ghost old_acc = acc@;
            assert(old_acc + (seq![c] + num_run(text@, cur as int + 1).0) =~= old_acc.push(c)
                + num_run(text@, cur as int + 1).0);
        }
        acc.push(c);
        cur = cur + 1;
    }
    proof {
        assert(acc@ + Seq::<char>::empty() =~= acc@);
    }
    (acc, cur)
}

fn check_lit(text: &Vec<char>, i: usize, lit: &Vec<char>) -> (r: bool)
    requires
        i <= text@.len(),
    ensures
        r == has_lit(text@, i as int, lit@),
{
    let n = text.len();
    if n - i < lit.len() {
        return false;
    }
    let mut k: usize = 0;
    while k < lit.len()
        invariant
            n == text@.len(),
            i + lit@.len() <= text@.len(),
            k <= lit@.len(),
            forall|m: int| 0 <= m < k ==> text@[i + m] == lit@[m],
        decreases lit@.len() - k,
    {
        if text[i + k] != lit[k] {
            return false;
        }
        k += 1;
    }
    proof {
        assert(text@.subrange(i as int, i + lit@.len()) =~= lit@);
    }
    true
}

fn parse_value_exec(text: &Vec<char>, i: usize, fuel: usize) -> (r: Option<(Value, usize)>)
    requires
        i <= text@.len(),
    ensures
        match r {
            Some((v, j)) => parse_value(text@, i as int, fuel as nat) == Some((v.deep(), j as int))
                && j <= text@.len(),
            None => parse_value(text@, i as int, fuel as nat) is None,
        },
    decreases fuel,
{
    if fuel == 0 {
        return None;
    }
    let j = skip_ws_exec(text, i);
    if j >= text.len() {
        return None;
    }
    let c = text[j];
    if c == '{' {
        let k = skip_ws_exec(text, j + 1);
        match parse_members_exec(text, k, true, fuel - 1) {
            Some((ms, q)) => Some((Value::Obj(ms), q)),
            None => None,
        }
    } else if c == '[' {
        let k = skip_ws_exec(text, j + 1);
        match parse_elems_exec(text, k, true, fuel - 1) {
            Some((es, q)) => Some((Value::Arr(es), q)),
            None => None,
        }
    } else if c == '"' {
        match parse_string_exec(text, j + 1) {
            Some((s, k)) => Some((Value::Str(s), k)),
            None => None,
        }
    } else if c == 't' {
        proof {
            reveal_strlit("true");
        }
        let lit = lit_true();
        if check_lit(text, j, &lit) {
            Some((Value::Bool(true), j + 4))
        } else {
            None
        }
    } else if c == 'f' {
        proof {
            reveal_strlit("false");
        }
        let lit = lit_false();
        if check_lit(text, j, &lit) {
            Some((Value::Bool(false), j + 5))
        } else {
            None
        }
    } else if c == 'n' {
        proof {
            reveal_strlit("null");
        }
        let lit = lit_null();
        if check_lit(text, j, &lit) {
            Some((Value::Null, j + 4))
        } else {
            None
        }
    } else if is_digit_exec(c) || c == '-' {
        let (s, k) = num_run_exec(text, j);
        Some((Value::Num(s), k))
    } else {
        None
    }
}

fn lit_true() -> (r: Vec<char>)
    ensures
        r@ == "true"@,
{
    proof {
        reveal_strlit("true");
    }
    let mut v: Vec<char> = Vec::new();
    v.push('t');
    v.push('r');
    v.push('u');
    v.push('e');
    proof {
        assert(v@ =~= "true"@);
    }
    v
}

fn lit_false() -> (r: Vec<char>)
    ensures
        r@ == "false"@,
{
    proof {
        reveal_strlit("false");
    }
    let mut v: Vec<char> = Vec::new();
    v.push('f');
    v.push('a');
    v.push('l');
    v.push('s');
    v.push('e');
    proof {
        assert(v@ =~= "false"@);
    }
    v
}

fn lit_null() -> (r: Vec<char>)
    ensures
        r@ == "null"@,
{
    proof {
        reveal_strlit("null");
    }
    let mut v: Vec<char> = Vec::new();
    v.push('n');
    v.push('u');
    v.push('l');
    v.push('l');
    proof {
        assert(v@ =~= "null"@);
    }
    v
}

fn parse_members_exec(text: &Vec<char>, i: usize, first: bool, fuel: usize) -> (r: Option<
    (Vec<(Vec<char>, Value)>, usize),
>)
    requires
        i <= text@.len(),
    ensures
        match r {
            Some((ms, q)) => parse_members(text@, i as int, first, fuel as nat) == Some(
                (deep_members(ms@), q as int),
            ) && q <= text@.len(),
            None => parse_members(text@, i as int, first, fuel as nat) is None,
        },
    decreases fuel,
{
    if fuel == 0 {
        return None;
    }
    if i >= text.len() {
        return None;
    }
    let c = text[i];
    if c == '}' && first {
        let ms: Vec<(Vec<char>, Value)> = Vec::new();
        return Some((ms, i + 1));
    }
    if c != '"' {
        return None;
    }
    match parse_string_exec(text, i + 1) {
        None => None,
        Some((key, j)) => {
            let k = skip_ws_exec(text, j);
            if k >= text.len() {
                return None;
            }
            if text[k] != ':' {
                return None;
            }
            match parse_value_exec(text, k + 1, fuel - 1) {
                None => None,
                Some((v, m)) => {
                    let p = skip_ws_exec(text, m);
                    if p >= text.len() {
                        return None;
                    }
                    if text[p] == ',' {
                        let nx = skip_ws_exec(text, p + 1);
                        match parse_members_exec(text, nx, false, fuel - 1) {
                            None => None,
                            Some((mut rest, q)) => {
                                proof {
                                    let ghost old_rest = rest@;
                                    assert(old_rest.insert(0, (key, v)) =~= seq![(key, v)]
                                        + old_rest);
                                    lemma_deep_members_prepend((key, v), old_rest);
                                }
                                rest.insert(0, (key, v));
                                Some((rest, q))
                            },
                        }
                    } else if text[p] == '}' {
                        let mut ms: Vec<(Vec<char>, Value)> = Vec::new();
                        ms.push((key, v));
                        proof {
                            assert(ms@ =~= seq![(key, v)]);
                            lemma_deep_members_singleton((key, v));
                        }
                        Some((ms, p + 1))
                    } else {
                        None
                    }
                },
            }
        },
    }
}

proof fn lemma_deep_members_singleton(x: (Vec<char>, Value))
    ensures
        deep_members(seq![x]) == seq![(x.0@, x.1.deep())],
{
    let w = seq![x];
    assert(w.drop_first() =~= Seq::<(Vec<char>, Value)>::empty());
    assert(deep_members(w.drop_first()) == Seq::<(Seq<char>, ValueModel)>::empty());
    assert(deep_members(w) =~= seq![(x.0@, x.1.deep())]);
}

proof fn lemma_deep_seq_singleton(x: Value)
    ensures
        deep_seq(seq![x]) == seq![x.deep()],
{
    let w = seq![x];
    assert(w.drop_first() =~= Seq::<Value>::empty());
    assert(deep_seq(w.drop_first()) == Seq::<ValueModel>::empty());
    assert(deep_seq(w) =~= seq![x.deep()]);
}

proof fn lemma_deep_members_prepend(x: (Vec<char>, Value), s: Seq<(Vec<char>, Value)>)
    ensures
        deep_members(seq![x] + s) == seq![(x.0@, x.1.deep())] + deep_members(s),
{
    let w = seq![x] + s;
    assert(w.len() > 0);
    assert(w[0] == x);
    assert(w.drop_first() =~= s);
}

proof fn lemma_deep_seq_prepend(x: Value, s: Seq<Value>)
    ensures
        deep_seq(seq![x] + s) == seq![x.deep()] + deep_seq(s),
{
    let w = seq![x] + s;
    assert(w.len() > 0);
    assert(w[0] == x);
    assert(w.drop_first() =~= s);
}

fn parse_elems_exec(text: &Vec<char>, i: usize, first: bool, fuel: usize) -> (r: Option<
    (Vec<Value>, usize),
>)
    requires
        i <= text@.len(),
    ensures
        match r {
            Some((es, q)) => parse_elems(text@, i as int, first, fuel as nat) == Some(
                (deep_seq(es@), q as int),
            ) && q <= text@.len(),
            None => parse_elems(text@, i as int, first, fuel as nat) is None,
        },
    decreases fuel,
{
    if fuel == 0 {
        return None;
    }
    if i >= text.len() {
        return None;
    }
    if text[i] == ']' && first {
        let es: Vec<Value> = Vec::new();
        return Some((es, i + 1));
    }
    match parse_value_exec(text, i, fuel - 1) {
        None => None,
        Some((v, m)) => {
            let p = skip_ws_exec(text, m);
            if p >= text.len() {
                return None;
            }
            if text[p] == ',' {
                let nx = skip_ws_exec(text, p + 1);
                match parse_elems_exec(text, nx, false, fuel - 1) {
                    None => None,
                    Some((mut rest, q)) => {
                        proof {
                            let ghost old_rest = rest@;
                            assert(old_rest.insert(0, v) =~= seq![v] + old_rest);
                            lemma_deep_seq_prepend(v, old_rest);
                        }
                        rest.insert(0, v);
                        Some((rest, q))
                    },
                }
            } else if text[p] == ']' {
                let mut es: Vec<Value> = Vec::new();
                es.push(v);
                proof {
                    assert(es@ =~= seq![v]);
                    lemma_deep_seq_singleton(v);
                }
                Some((es, p + 1))
            } else {
                None
            }
        },
    }
}

impl Value {
    /// A fresh tree standing for the same value.
    pub fn duplicate(&self) -> (r: Value)
        ensures
            r.deep() == self.deep(),
        decreases self,
    {
        match self {
            Value::Null => Value::Null,
            Value::Bool(b) => Value::Bool(*b),
            Value::Num(s) => Value::Num(dup_chars(s)),
            Value::Str(s) => Value::Str(dup_chars(s)),
            Value::Arr(a) => {
                let mut out: Vec<Value> = Vec::new();
                let mut i: usize = 0;
                proof {
                    lemma_deep_seq(a@);
                    assert(deep_seq(out@) =~= deep_seq(a@).take(0));
                }
                while i < a.len()
                    invariant
                        *self == Value::Arr(*a),
                        i <= a@.len(),
                        deep_seq(a@).len() == a@.len(),
                        forall|j: int| 0 <= j < a@.len() ==> deep_seq(a@)[j] == a@[j].deep(),
                        deep_seq(out@) == deep_seq(a@).take(i as int),
                    decreases a@.len() - i,
                {
                    proof {
                        assert(decreases_to!(*self => (*self)->Arr_0));
                        assert((*self)->Arr_0 == *a);
                        assert(decreases_to!(*a => a@));
                        assert(decreases_to!(a@ => a@[i as int]));
                        assert(decreases_to!(*self => a@[i as int]));
                    }
                    let d = a[i].duplicate();
                    proof {
                        lemma_deep_seq_push(out@, d);
                        assert(deep_seq(a@).take(i as int).push(a@[i as int].deep())
                            =~= deep_seq(a@).take(i as int + 1));
                    }
                    out.push(d);
                    i += 1;
                }
                proof {
                    assert(deep_seq(a@).take(a@.len() as int) =~= deep_seq(a@));
                }
                Value::Arr(out)
            },
            Value::Obj(m) => {
                let mut out: Vec<(Vec<char>, Value)> = Vec::new();
                let mut i: usize = 0;
                proof {
                    lemma_deep_members(m@);
                    assert(deep_members(out@) =~= deep_members(m@).take(0));
                }
                while i < m.len()
                    invariant
                        *self == Value::Obj(*m),
                        i <= m@.len(),
                        deep_members(m@).len() == m@.len(),
                        forall|j: int|
                            0 <= j < m@.len() ==> deep_members(m@)[j] == (
                            m@[j].0@,
                            m@[j].1.deep(),
                        ),
                        deep_members(out@) == deep_members(m@).take(i as int),
                    decreases m@.len() - i,
                {
                    proof {
                        assert(decreases_to!(*self => (*self)->Obj_0));
                        assert((*self)->Obj_0 == *m);
                        assert(decreases_to!(*m => m@));
                        assert(decreases_to!(m@ => m@[i as int]));
                        assert(decreases_to!(m@[i as int] => m@[i as int].1));
                        assert(decreases_to!(*self => m@[i as int].1));
                    }
                    let k = dup_chars(&m[i].0);
                    let d = m[i].1.duplicate();
                    proof {
                        lemma_deep_members_push(out@, (k, d));
                        assert(deep_members(m@).take(i as int).push((
                            m@[i as int].0@,
                            m@[i as int].1.deep(),
                        )) =~= deep_members(m@).take(i as int + 1));
                    }
                    out.push((k, d));
                    i += 1;
                }
                proof {
                    assert(deep_members(m@).take(m@.len() as int) =~= deep_members(m@));
                }
                Value::Obj(out)
            },
        }
    }
}

/// A fresh vector holding the same characters.
fn dup_chars(s: &Vec<char>) -> (r: Vec<char>)
    ensures
        r@ == s@,
{
    let mut r: Vec<char> = Vec::new();
    let mut i: usize = 0;
    while i < s.len()
        invariant
            i <= s@.len(),
            r@ =~= s@.take(i as int),
        decreases s@.len() - i,
    {
        r.push(s[i]);
        i += 1;
    }
    proof {
        assert(s@.take(s@.len() as int) =~= s@);
    }
    r
}

/// Parses the value that `text` holds, or `None` when the text in front
/// is not a well-formed value.
pub fn parse_text(text: &Vec<char>) -> (r: Option<Value>)
    requires
        text@.len() < usize::MAX,
    ensures
        match r {
            Some(v) => spec_parse_text(text@) == Some(v.deep()),
            None => spec_parse_text(text@) is None,
        },
{
    match parse_value_exec(text, 0, text.len() + 1) {
        Some((v, _)) => Some(v),
        None => None,
    }
}

} // verus!
