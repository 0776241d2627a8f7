//! Building the search request's inputs: joining the query tokens with
//! spaces, and rendering the request URL with the query percent-encoded.

use vstd::prelude::*;
use vstd::string::StringExecFns;
use vstd::string::StringSliceAdditionalSpecFns;

use crate::text;

verus! {

// ---------------------------------------------------------------------------
// Joining the query tokens
// ---------------------------------------------------------------------------

/// Every word of `args` followed by one space.
pub open spec fn with_spaces(args: Seq<Seq<char>>) -> Seq<char>
    decreases args.len(),
{
    if args.len() == 0 {
        Seq::empty()
    } else {
        with_spaces(args.drop_last()) + args.last() + seq![' ']
    }
}

/// The words of `args` joined by single spaces; empty input joins to the
/// empty word.
pub open spec fn spec_joined(args: Seq<Seq<char>>) -> Seq<char> {
    if args.len() == 0 {
        Seq::empty()
    } else {
        with_spaces(args.drop_last()) + args.last()
    }
}

/// The words joined by single spaces, or `None` when no word was given.
pub fn query_string(args: &Vec<String>) -> (r: Option<String>)
    ensures
        r is None <==> args@.len() == 0,
        r matches Some(s) ==> s@ == spec_joined(args.deep_view()),
{
    if args.is_empty() {
        return None;
    }
    let ghost dv = args.deep_view();
    proof {
        assert(dv.len() == args@.len());
        assert(dv.take(0) =~= Seq::<Seq<char>>::empty());
    }
    let mut s = String::new();
    let n = args.len() - 1;
    let mut i: usize = 0;
    while i < n
        invariant
            n == args@.len() - 1,
            dv == args.deep_view(),
            dv.len() == args@.len(),
            forall|j: int| 0 <= j < args@.len() ==> dv[j] == args@[j]@,
            i <= n,
            s@ == with_spaces(dv.take(i as int)),
        decreases n - i,
    {
        proof {
            assert(dv.take(i as int + 1).drop_last() =~= dv.take(i as int));
            assert(dv.take(i as int + 1).last() == dv[i as int]);
        }
        s.append(args[i].as_str());
        s.append(" ");
        proof {
            reveal_strlit(" ");
            assert(" "@ =~= seq![' ']);
            assert(s@ =~= with_spaces(dv.take(i as int + 1)));
        }
        i += 1;
    }
    proof {
        assert(dv.take(n as int) =~= dv.drop_last());
        assert(dv.last() == dv[n as int]);
    }
    s.append(args[n].as_str());
    Some(s)
}

// ---------------------------------------------------------------------------
// Percent-encoding and the request URL
// ---------------------------------------------------------------------------

/// Bytes that stay themselves under the encoding: ASCII letters and
/// digits.
pub open spec fn is_plain_byte(b: u8) -> bool {
    (0x30 <= b && b <= 0x39) || (0x41 <= b && b <= 0x5A) || (0x61 <= b && b <= 0x7A)
}

/// The decimal digit character for `v`.
pub open spec fn dec_digit(v: int) -> char {
    if v == 0 {
        '0'
    } else if v == 1 {
        '1'
    } else if v == 2 {
        '2'
    } else if v == 3 {
        '3'
    } else if v == 4 {
        '4'
    } else if v == 5 {
        '5'
    } else if v == 6 {
        '6'
    } else if v == 7 {
        '7'
    } else if v == 8 {
        '8'
    } else {
        '9'
    }
}

/// The uppercase hexadecimal digit character for `v`.
pub open spec fn hex_digit(v: int) -> char {
    if v < 10 {
        dec_digit(v)
    } else if v == 10 {
        'A'
    } else if v == 11 {
        'B'
    } else if v == 12 {
        'C'
    } else if v == 13 {
        'D'
    } else if v == 14 {
        'E'
    } else {
        'F'
    }
}

/// What one byte becomes: itself when a letter or digit, else a percent
/// sign and two uppercase hexadecimal digits.
pub open spec fn encode_byte(b: u8) -> Seq<char> {
    if is_plain_byte(b) {
        seq![b as char]
    } else {
        seq!['%', hex_digit(b as int / 16), hex_digit(b as int % 16)]
    }
}

/// The percent-encoding of `bs`, byte by byte.
pub open spec fn percent_encoded(bs: Seq<u8>) -> Seq<char>
    decreases bs.len(),
{
    if bs.len() == 0 {
        Seq::empty()
    } else {
        encode_byte(bs[0]) + percent_encoded(bs.drop_first())
    }
}

/// Relies on `percent_encoding::utf8_percent_encode` with
/// `percent_encoding::NON_ALPHANUMERIC`: every byte of the string's UTF-8
/// encoding that is not an ASCII letter or digit becomes a percent sign
/// and two uppercase hexadecimal digits, and letters and digits stay
/// themselves, in order.
#[verifier::external_body]
fn percent_encode_query(s: &str) -> (r: String)
    ensures
        r@ == percent_encoded(s.spec_bytes()),
{
    percent_encoding::utf8_percent_encode(s, percent_encoding::NON_ALPHANUMERIC).to_string()
}

/// The decimal spelling of `n`, most significant digit first, without
/// leading zeros.
pub open spec fn spec_digits(n: int) -> Seq<char>
    decreases n,
{
    if n < 10 {
        seq![dec_digit(n)]
    } else {
        spec_digits(n / 10).push(dec_digit(n % 10))
    }
}

fn dec_digit_exec(v: usize) -> (r: char)
    requires
        v < 10,
    ensures
        r == dec_digit(v as int),
{
    match v {
        0 => '0',
        1 => '1',
        2 => '2',
        3 => '3',
        4 => '4',
        5 => '5',
        6 => '6',
        7 => '7',
        8 => '8',
        _ => '9',
    }
}

fn digits_exec(n: usize) -> (r: Vec<char>)
    ensures
        r@ == spec_digits(n as int),
    decreases n,
{
    if n < 10 {
        let mut v: Vec<char> = Vec::new();
        v.push(dec_digit_exec(n));
        proof {
            assert(v@ =~= spec_digits(n as int));
        }
        v
    } else {
        let mut v = digits_exec(n / 10);
        v.push(dec_digit_exec(n % 10));
        v
    }
}

/// The fixed part of the results URL up to the query value.
pub open spec fn url_prefix() -> Seq<char> {
    "https://www.youtube.com/results?search_query="@
}

/// The separator between the query value and the page number.
pub open spec fn page_sep() -> Seq<char> {
    "&page="@
}

/// The whole search URL for a query and a one-based page number: the
/// fixed endpoint, the percent-encoded query, and the page.
pub open spec fn spec_search_url(q: Seq<u8>, page: int) -> Seq<char> {
    url_prefix() + percent_encoded(q) + page_sep() + spec_digits(page)
}

/// The search URL for `query` and the one-based `page`.
pub fn search_url(query: &str, page: usize) -> (r: String)
    requires
        page >= 1,
    ensures
        r@ == spec_search_url(query.spec_bytes(), page as int),
{
    let mut s = String::from_str("https://www.youtube.com/results?search_query=");
    let enc = percent_encode_query(query);
    s.append(enc.as_str());
    s.append("&page=");
    let d = digits_exec(page);
    let ds = text::chars_to_string(&d);
    s.append(ds.as_str());
    proof {
        assert(s@ =~= spec_search_url(query.spec_bytes(), page as int));
    }
    s
}

} // verus!
