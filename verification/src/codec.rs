//! The snapshot JSON codec.
//!
//! The fetcher persists what it accumulated as a JSON file, and the viewer
//! loads such a file back; this module is that file format. The encoder
//! writes one canonical, compact form — every member present and in a fixed
//! order, absent options written as `null`, no whitespace between tokens,
//! strings escaped with `\"`, `\\` and `\u00..` for control characters —
//! and the loaders accept exactly that form. Loading an encoded snapshot
//! reproduces the encoded value field for field; the round trip is proved
//! below.
//!
//! The scope is deliberate: this codec defines the files this library
//! writes and reads back, not the bodies the remote API sends. Live
//! response bodies — which may carry whitespace, members in any order,
//! absent optional members and members outside the data model — are
//! decoded at the application edge and handed to the library as values.

use vstd::arithmetic::div_mod::lemma_fundamental_div_mod;
use vstd::prelude::*;

use crate::model::{Account, AccountAttributes, AccountAttributesV, AccountV, Amount, AmountV,
    ApiResponse, ApiResponseV, Balance, BalanceV, DataStruct, DataStructV, Links, LinksV,
    PerformingCustomer, PerformingCustomerV, TransactionAttributes, TransactionAttributesV,
    Transactions, TransactionsV};

verus! {

// ------------------------- character tables -------------------------

/// The lower-case hexadecimal digit of a value below sixteen.
pub open spec fn hex_digit(n: int) -> char {
    if n == 0 {
        '0'
    } else if n == 1 {
        '1'
    } else if n == 2 {
        '2'
    } else if n == 3 {
        '3'
    } else if n == 4 {
        '4'
    } else if n == 5 {
        '5'
    } else if n == 6 {
        '6'
    } else if n == 7 {
        '7'
    } else if n == 8 {
        '8'
    } else if n == 9 {
        '9'
    } else if n == 10 {
        'a'
    } else if n == 11 {
        'b'
    } else if n == 12 {
        'c'
    } else if n == 13 {
        'd'
    } else if n == 14 {
        'e'
    } else if n == 15 {
        'f'
    } else {
        '0'
    }
}

/// The value of a lower-case hexadecimal digit, or a negative sentinel
/// for any other character.
pub open spec fn hex_val(c: char) -> int {
    if c == '0' {
        0
    } else if c == '1' {
        1
    } else if c == '2' {
        2
    } else if c == '3' {
        3
    } else if c == '4' {
        4
    } else if c == '5' {
        5
    } else if c == '6' {
        6
    } else if c == '7' {
        7
    } else if c == '8' {
        8
    } else if c == '9' {
        9
    } else if c == 'a' {
        10
    } else if c == 'b' {
        11
    } else if c == 'c' {
        12
    } else if c == 'd' {
        13
    } else if c == 'e' {
        14
    } else if c == 'f' {
        15
    } else {
        -1
    }
}

/// The control character with a given code below thirty-two.
pub open spec fn ctl_char(n: int) -> char {
    if n == 0 {
        '\u{0}'
    } else if n == 1 {
        '\u{1}'
    } else if n == 2 {
        '\u{2}'
    } else if n == 3 {
        '\u{3}'
    } else if n == 4 {
        '\u{4}'
    } else if n == 5 {
        '\u{5}'
    } else if n == 6 {
        '\u{6}'
    } else if n == 7 {
        '\u{7}'
    } else if n == 8 {
        '\u{8}'
    } else if n == 9 {
        '\u{9}'
    } else if n == 10 {
        '\u{a}'
    } else if n == 11 {
        '\u{b}'
    } else if n == 12 {
        '\u{c}'
    } else if n == 13 {
        '\u{d}'
    } else if n == 14 {
        '\u{e}'
    } else if n == 15 {
        '\u{f}'
    } else if n == 16 {
        '\u{10}'
    } else if n == 17 {
        '\u{11}'
    } else if n == 18 {
        '\u{12}'
    } else if n == 19 {
        '\u{13}'
    } else if n == 20 {
        '\u{14}'
    } else if n == 21 {
        '\u{15}'
    } else if n == 22 {
        '\u{16}'
    } else if n == 23 {
        '\u{17}'
    } else if n == 24 {
        '\u{18}'
    } else if n == 25 {
        '\u{19}'
    } else if n == 26 {
        '\u{1a}'
    } else if n == 27 {
        '\u{1b}'
    } else if n == 28 {
        '\u{1c}'
    } else if n == 29 {
        '\u{1d}'
    } else if n == 30 {
        '\u{1e}'
    } else if n == 31 {
        '\u{1f}'
    } else {
        ' '
    }
}

proof fn lemma_hex_roundtrip(n: int)
    requires
        0 <= n < 16,
    ensures
        hex_val(hex_digit(n)) == n,
{
}

proof fn lemma_ctl_char_code(c: char)
    requires
        (c as u32) < 32,
    ensures
        ctl_char(c as u32 as int) == c,
{
}

// ------------------------- string encoding -------------------------

/// The escape of one character inside a JSON string: quote and backslash
/// get a two-character escape, control characters a unicode escape, and
/// everything else stands as itself.
pub open spec fn esc_char(c: char) -> Seq<char> {
    if c == '"' {
        seq!['\\', '"']
    } else if c == '\\' {
        seq!['\\', '\\']
    } else if (c as u32) < 32 {
        seq![
            '\\',
            'u',
            '0',
            '0',
            hex_digit((c as u32) as int / 16),
            hex_digit((c as u32) as int % 16),
        ]
    } else {
        seq![c]
    }
}

/// The body of an encoded JSON string: each character escaped, in order.
pub open spec fn enc_str_body(s: Seq<char>) -> Seq<char>
    decreases s.len(),
{
    if s.len() == 0 {
        Seq::empty()
    } else {
        esc_char(s[0]) + enc_str_body(s.skip(1))
    }
}

/// An encoded JSON string: the escaped body between two quotes.
pub open spec fn enc_string(s: Seq<char>) -> Seq<char> {
    seq!['"'] + enc_str_body(s) + seq!['"']
}

proof fn lemma_enc_body_append(a: Seq<char>, b: Seq<char>)
    ensures
        enc_str_body(a + b) == enc_str_body(a) + enc_str_body(b),
    decreases a.len(),
{
    if a.len() == 0 {
        assert(a + b =~= b);
        assert(enc_str_body(a) + enc_str_body(b) =~= enc_str_body(b));
    } else {
        lemma_enc_body_append(a.skip(1), b);
        assert((a + b).skip(1) =~= a.skip(1) + b);
        assert(esc_char(a[0]) + (enc_str_body(a.skip(1)) + enc_str_body(b)) =~= (esc_char(a[0])
            + enc_str_body(a.skip(1))) + enc_str_body(b));
    }
}

// ------------------------- string parsing -------------------------

/// Parses the body of a JSON string after its opening quote: the decoded
/// characters and what follows the closing quote, or nothing when the
/// input is not a well-formed string body.
pub open spec fn sp_str_body(s: Seq<char>) -> Option<(Seq<char>, Seq<char>)>
    decreases s.len(),
{
    if s.len() == 0 {
        None
    } else if s[0] == '"' {
        Some((Seq::empty(), s.skip(1)))
    } else if s[0] == '\\' {
        if s.len() >= 2 && (s[1] == '"' || s[1] == '\\') {
            match sp_str_body(s.skip(2)) {
                Some((t, r)) => Some((seq![s[1]] + t, r)),
                None => None,
            }
        } else if s.len() >= 6 && s[1] == 'u' && s[2] == '0' && s[3] == '0' && hex_val(s[4]) >= 0
            && hex_val(s[5]) >= 0 && hex_val(s[4]) * 16 + hex_val(s[5]) < 32 {
            match sp_str_body(s.skip(6)) {
                Some((t, r)) => Some((seq![ctl_char(hex_val(s[4]) * 16 + hex_val(s[5]))] + t, r)),
                None => None,
            }
        } else {
            None
        }
    } else {
        match sp_str_body(s.skip(1)) {
            Some((t, r)) => Some((seq![s[0]] + t, r)),
            None => None,
        }
    }
}

/// Parses a JSON string, opening quote included.
pub open spec fn sp_string(s: Seq<char>) -> Option<(Seq<char>, Seq<char>)> {
    if s.len() >= 1 && s[0] == '"' {
        sp_str_body(s.skip(1))
    } else {
        None
    }
}

proof fn lemma_sp_body_enc(v: Seq<char>, rest: Seq<char>)
    ensures
        sp_str_body(enc_str_body(v) + seq!['"'] + rest) == Some((v, rest)),
    decreases v.len(),
{
    let s = enc_str_body(v) + seq!['"'] + rest;
    if v.len() == 0 {
        assert(s =~= seq!['"'] + rest);
        assert(s.skip(1) =~= rest);
        assert(Seq::<char>::empty() =~= v);
    } else {
        let c = v[0];
        lemma_sp_body_enc(v.skip(1), rest);
        let tail = enc_str_body(v.skip(1)) + seq!['"'] + rest;
        assert(s =~= esc_char(c) + tail);
        assert(seq![c] + v.skip(1) =~= v);
        if c == '"' {
            assert(s.skip(2) =~= tail);
        } else if c == '\\' {
            assert(s.skip(2) =~= tail);
        } else if (c as u32) < 32 {
            let n = (c as u32) as int;
            lemma_fundamental_div_mod(n, 16);
            lemma_hex_roundtrip(n / 16);
            lemma_hex_roundtrip(n % 16);
            lemma_ctl_char_code(c);
            assert(s.skip(6) =~= tail);
        } else {
            assert(s.skip(1) =~= tail);
        }
    }
}

proof fn lemma_sp_string_enc(v: Seq<char>, rest: Seq<char>)
    ensures
        sp_string(enc_string(v) + rest) == Some((v, rest)),
{
    let s = enc_string(v) + rest;
    assert(s[0] == '"');
    assert(s.skip(1) =~= enc_str_body(v) + seq!['"'] + rest);
    lemma_sp_body_enc(v, rest);
}

// ------------------------- exec helpers -------------------------

/// Relies on `core::iter::Iterator::collect` building a `String` from
/// exactly the characters of the iterator, in order.
#[verifier::external_body]
fn chars_to_string(v: Vec<char>) -> (r: String)
    ensures
        r@ == v@,
{
    v.into_iter().collect()
}

/// The characters of a string slice, in order.
fn str_to_chars(s: &str) -> (r: Vec<char>)
    ensures
        r@ == s@,
{
    let n = s.unicode_len();
    let mut r: Vec<char> = Vec::new();
    let mut i: usize = 0;
    while i < n
        invariant
            i <= n,
            n == s@.len(),
            r@ == s@.take(i as int),
        decreases n - i,
    {
        r.push(s.get_char(i));
        proof {
            assert(s@.take(i as int + 1) =~= s@.take(i as int).push(s@[i as int]));
        }
        i = i + 1;
    }
    proof {
        assert(s@.take(n as int) =~= s@);
    }
    r
}

/// Appends the characters of a literal to the output.
fn push_str_chars(buf: &mut Vec<char>, s: &str)
    ensures
        final(buf)@ == old(buf)@ + s@,
{
    let n = s.unicode_len();
    let mut i: usize = 0;
    while i < n
        invariant
            i <= n,
            n == s@.len(),
            buf@ == old(buf)@ + s@.take(i as int),
        decreases n - i,
    {
        buf.push(s.get_char(i));
        proof {
            assert(old(buf)@ + s@.take(i as int + 1) =~= (old(buf)@ + s@.take(i as int)).push(
                s@[i as int],
            ));
        }
        i = i + 1;
    }
    proof {
        assert(old(buf)@ + s@.take(n as int) =~= old(buf)@ + s@);
    }
}

/// The lower-case hexadecimal digit of a value below sixteen.
fn hex_digit_char(n: u32) -> (r: char)
    requires
        n < 16,
    ensures
        r == hex_digit(n as int),
{
    if n == 0 {
        '0'
    } else if n == 1 {
        '1'
    } else if n == 2 {
        '2'
    } else if n == 3 {
        '3'
    } else if n == 4 {
        '4'
    } else if n == 5 {
        '5'
    } else if n == 6 {
        '6'
    } else if n == 7 {
        '7'
    } else if n == 8 {
        '8'
    } else if n == 9 {
        '9'
    } else if n == 10 {
        'a'
    } else if n == 11 {
        'b'
    } else if n == 12 {
        'c'
    } else if n == 13 {
        'd'
    } else if n == 14 {
        'e'
    } else {
        'f'
    }
}

/// Appends the escape of one character to the output.
fn push_escaped(buf: &mut Vec<char>, c: char)
    ensures
        final(buf)@ == old(buf)@ + esc_char(c),
{
    if c == '"' {
        buf.push('\\');
        buf.push('"');
        proof {
            assert(old(buf)@ + esc_char(c) =~= old(buf)@.push('\\').push('"'));
        }
    } else if c == '\\' {
        buf.push('\\');
        buf.push('\\');
        proof {
            assert(old(buf)@ + esc_char(c) =~= old(buf)@.push('\\').push('\\'));
        }
    } else if (c as u32) < 32 {
        let code = c as u32;
        buf.push('\\');
        buf.push('u');
        buf.push('0');
        buf.push('0');
        buf.push(hex_digit_char(code / 16));
        buf.push(hex_digit_char(code % 16));
        proof {
            assert(old(buf)@ + esc_char(c) =~= old(buf)@.push('\\').push('u').push('0').push(
                '0',
            ).push(hex_digit((c as u32) as int / 16)).push(hex_digit((c as u32) as int % 16)));
        }
    } else {
        buf.push(c);
        proof {
            assert(old(buf)@ + esc_char(c) =~= old(buf)@.push(c));
        }
    }
}

/// Appends the JSON encoding of a string, quotes included, to the output.
fn push_json_string(buf: &mut Vec<char>, s: &str)
    ensures
        final(buf)@ == old(buf)@ + enc_string(s@),
{
    let chars = str_to_chars(s);
    buf.push('"');
    let n = chars.len();
    let mut i: usize = 0;
    while i < n
        invariant
            i <= n,
            n == chars@.len(),
            chars@ == s@,
            buf@ == old(buf)@ + seq!['"'] + enc_str_body(s@.take(i as int)),
        decreases n - i,
    {
        let ghost pre = s@.take(i as int);
        push_escaped(buf, chars[i]);
        proof {
            assert(s@.take(i as int + 1) =~= pre + seq![s@[i as int]]);
            lemma_enc_body_append(pre, seq![s@[i as int]]);
            let one = seq![s@[i as int]];
            assert(one.skip(1) =~= Seq::<char>::empty());
            assert(enc_str_body(one) == esc_char(one[0]) + enc_str_body(one.skip(1)));
            assert(esc_char(s@[i as int]) + Seq::<char>::empty() =~= esc_char(s@[i as int]));
            assert(old(buf)@ + seq!['"'] + enc_str_body(s@.take(i as int + 1)) =~= (old(buf)@
                + seq!['"'] + enc_str_body(pre)) + esc_char(s@[i as int]));
        }
        i = i + 1;
    }
    buf.push('"');
    proof {
        assert(s@.take(n as int) =~= s@);
        assert(old(buf)@ + enc_string(s@) =~= (old(buf)@ + seq!['"'] + enc_str_body(s@)).push('"'));
    }
}

// ------------------------- exec string parsing -------------------------

/// Holds when parsing the remainder `cur` and prepending `acc` to its
/// decoded text agrees with parsing the whole body `orig`.
spec fn body_rel(orig: Seq<char>, acc: Seq<char>, cur: Seq<char>) -> bool {
    sp_str_body(orig) == match sp_str_body(cur) {
        Some((t, r)) => Some::<(Seq<char>, Seq<char>)>((acc + t, r)),
        None => None::<(Seq<char>, Seq<char>)>,
    }
}

/// The value of a lower-case hexadecimal digit, or a sentinel.
fn hex_val_char(c: char) -> (r: i32)
    ensures
        r as int == hex_val(c),
{
    if c == '0' {
        0
    } else if c == '1' {
        1
    } else if c == '2' {
        2
    } else if c == '3' {
        3
    } else if c == '4' {
        4
    } else if c == '5' {
        5
    } else if c == '6' {
        6
    } else if c == '7' {
        7
    } else if c == '8' {
        8
    } else if c == '9' {
        9
    } else if c == 'a' {
        10
    } else if c == 'b' {
        11
    } else if c == 'c' {
        12
    } else if c == 'd' {
        13
    } else if c == 'e' {
        14
    } else if c == 'f' {
        15
    } else {
        -1
    }
}

/// The control character with a given code below thirty-two.
fn ctl_char_of(n: u32) -> (r: char)
    requires
        n < 32,
    ensures
        r == ctl_char(n as int),
{
    if n == 0 {
        '\u{0}'
    } else if n == 1 {
        '\u{1}'
    } else if n == 2 {
        '\u{2}'
    } else if n == 3 {
        '\u{3}'
    } else if n == 4 {
        '\u{4}'
    } else if n == 5 {
        '\u{5}'
    } else if n == 6 {
        '\u{6}'
    } else if n == 7 {
        '\u{7}'
    } else if n == 8 {
        '\u{8}'
    } else if n == 9 {
        '\u{9}'
    } else if n == 10 {
        '\u{a}'
    } else if n == 11 {
        '\u{b}'
    } else if n == 12 {
        '\u{c}'
    } else if n == 13 {
        '\u{d}'
    } else if n == 14 {
        '\u{e}'
    } else if n == 15 {
        '\u{f}'
    } else if n == 16 {
        '\u{10}'
    } else if n == 17 {
        '\u{11}'
    } else if n == 18 {
        '\u{12}'
    } else if n == 19 {
        '\u{13}'
    } else if n == 20 {
        '\u{14}'
    } else if n == 21 {
        '\u{15}'
    } else if n == 22 {
        '\u{16}'
    } else if n == 23 {
        '\u{17}'
    } else if n == 24 {
        '\u{18}'
    } else if n == 25 {
        '\u{19}'
    } else if n == 26 {
        '\u{1a}'
    } else if n == 27 {
        '\u{1b}'
    } else if n == 28 {
        '\u{1c}'
    } else if n == 29 {
        '\u{1d}'
    } else if n == 30 {
        '\u{1e}'
    } else {
        '\u{1f}'
    }
}

/// Parses a JSON string starting at `i`, returning the decoded text and
/// the position after the closing quote.
fn parse_json_string(s: &Vec<char>, i: usize) -> (r: Option<(String, usize)>)
    requires
        i <= s@.len(),
    ensures
        match r {
            Some((v, j)) => i <= j <= s@.len() && sp_string(s@.skip(i as int)) == Some(
                (v@, s@.skip(j as int)),
            ),
            None => sp_string(s@.skip(i as int)) is None,
        },
{
    if i == s.len() || s[i] != '"' {
        proof {
            if i < s@.len() {
                assert(s@.skip(i as int)[0] == s@[i as int]);
            }
        }
        return None;
    }
    let mut acc: Vec<char> = Vec::new();
    let mut j: usize = i + 1;
    let ghost orig = s@.skip(i as int + 1);
    proof {
        assert(sp_string(s@.skip(i as int)) == sp_str_body(orig)) by {
            assert(s@.skip(i as int)[0] == '"');
            assert(s@.skip(i as int).skip(1) =~= orig);
        }
        if let Some((t, r)) = sp_str_body(orig) {
            assert(Seq::<char>::empty() + t =~= t);
        }
    }
    loop
        invariant
            i + 1 <= j <= s@.len(),
            orig == s@.skip(i as int + 1),
            sp_string(s@.skip(i as int)) == sp_str_body(orig),
            body_rel(orig, acc@, s@.skip(j as int)),
        decreases s@.len() - j,
    {
        let ghost cur = s@.skip(j as int);
        if j == s.len() {
            proof {
                assert(cur.len() == 0);
            }
            return None;
        }
        let c = s[j];
        proof {
            assert(cur[0] == c);
        }
        if c == '"' {
            proof {
                assert(sp_str_body(cur) == Some((Seq::<char>::empty(), cur.skip(1))));
                assert(cur.skip(1) =~= s@.skip(j as int + 1));
                assert(acc@ + Seq::<char>::empty() =~= acc@);
            }
            let v = chars_to_string(acc);
            return Some((v, j + 1));
        } else if c == '\\' {
            if j + 1 < s.len() && (s[j + 1] == '"' || s[j + 1] == '\\') {
                let d = s[j + 1];
                let ghost next = s@.skip(j as int + 2);
                proof {
                    assert(cur.len() >= 2 && cur[1] == d);
                    assert(cur.skip(2) =~= next);
                    if let Some((t, r)) = sp_str_body(next) {
                        assert(sp_str_body(cur) == Some((seq![d] + t, r)));
                        assert(acc@ + (seq![d] + t) =~= (acc@ + seq![d]) + t);
                        assert((acc@ + seq![d]) =~= acc@.push(d));
                    } else {
                        assert(sp_str_body(cur) is None);
                    }
                }
                acc.push(d);
                j = j + 2;
            } else if s.len() - j > 5 && s[j + 1] == 'u' && s[j + 2] == '0' && s[j + 3] == '0' {
                let h1 = hex_val_char(s[j + 4]);
                let h2 = hex_val_char(s[j + 5]);
                if h1 >= 0 && h2 >= 0 && h1 * 16 + h2 < 32 {
                    let code = (h1 * 16 + h2) as u32;
                    let d = ctl_char_of(code);
                    let ghost next = s@.skip(j as int + 6);
                    proof {
                        assert(cur.len() >= 6);
                        assert(cur[1] == 'u' && cur[2] == '0' && cur[3] == '0');
                        assert(cur[4] == s@[j as int + 4] && cur[5] == s@[j as int + 5]);
                        assert(cur.skip(6) =~= next);
                        if let Some((t, r)) = sp_str_body(next) {
                            assert(sp_str_body(cur) == Some((seq![d] + t, r)));
                            assert(acc@ + (seq![d] + t) =~= acc@.push(d) + t);
                        } else {
                            assert(sp_str_body(cur) is None);
                        }
                    }
                    acc.push(d);
                    j = j + 6;
                } else {
                    proof {
                        assert(cur.len() >= 2 && cur[1] != '"' && cur[1] != '\\');
                        assert(cur.len() >= 6 && cur[4] == s@[j as int + 4] && cur[5] == s@[j
                            as int + 5]);
                        assert(sp_str_body(cur) is None);
                    }
                    return None;
                }
            } else {
                proof {
                    if cur.len() >= 2 {
                        assert(cur[1] == s@[j as int + 1]);
                    }
                    if cur.len() >= 6 {
                        assert(cur[1] == s@[j as int + 1] && cur[2] == s@[j as int + 2] && cur[3]
                            == s@[j as int + 3]);
                    }
                    assert(sp_str_body(cur) is None);
                }
                return None;
            }
        } else {
            let ghost next = s@.skip(j as int + 1);
            proof {
                assert(cur.skip(1) =~= next);
                if let Some((t, r)) = sp_str_body(next) {
                    assert(sp_str_body(cur) == Some((seq![c] + t, r)));
                    assert(acc@ + (seq![c] + t) =~= acc@.push(c) + t);
                } else {
                    assert(sp_str_body(cur) is None);
                }
            }
            acc.push(c);
            j = j + 1;
        }
    }
}

// ------------------------- literals and options -------------------------

/// Parses an expected literal: the input past it, or nothing when the
/// input does not start with it.
pub open spec fn sp_lit(s: Seq<char>, lit: Seq<char>) -> Option<Seq<char>> {
    if lit.len() <= s.len() && s.take(lit.len() as int) == lit {
        Some(s.skip(lit.len() as int))
    } else {
        None
    }
}

proof fn lemma_sp_lit_enc(lit: Seq<char>, rest: Seq<char>)
    ensures
        sp_lit(lit + rest, lit) == Some(rest),
{
    assert((lit + rest).take(lit.len() as int) =~= lit);
    assert((lit + rest).skip(lit.len() as int) =~= rest);
}

/// The encoding of an optional string field: `null` when absent.
pub open spec fn enc_opt_str(o: Option<Seq<char>>) -> Seq<char> {
    match o {
        None => "null"@,
        Some(v) => enc_string(v),
    }
}

/// Parses an optional string field: `null` or a JSON string.
pub open spec fn sp_opt_string(s: Seq<char>) -> Option<(Option<Seq<char>>, Seq<char>)> {
    if s.len() >= 1 && s[0] == 'n' {
        match sp_lit(s, "null"@) {
            Some(r) => Some((None, r)),
            None => None,
        }
    } else {
        match sp_string(s) {
            Some((v, r)) => Some((Some(v), r)),
            None => None,
        }
    }
}

proof fn lemma_sp_opt_string_enc(o: Option<Seq<char>>, rest: Seq<char>)
    ensures
        sp_opt_string(enc_opt_str(o) + rest) == Some((o, rest)),
{
    reveal_strlit("null");
    match o {
        None => {
            let s = "null"@ + rest;
            assert(s[0] == 'n');
            lemma_sp_lit_enc("null"@, rest);
        },
        Some(v) => {
            let s = enc_string(v) + rest;
            assert(s[0] == '"');
            lemma_sp_string_enc(v, rest);
        },
    }
}

// ------------------------- amounts -------------------------

/// The encoding of an amount object.
pub open spec fn enc_amount(a: AmountV) -> Seq<char> {
    "{\"currencyCode\":"@ + enc_opt_str(a.currency_code) + ",\"value\":"@ + enc_opt_str(a.value)
        + "}"@
}

/// Parses an amount object.
pub open spec fn sp_amount(s: Seq<char>) -> Option<(AmountV, Seq<char>)> {
    match sp_lit(s, "{\"currencyCode\":"@) {
        None => None,
        Some(s1) => match sp_opt_string(s1) {
            None => None,
            Some((cc, s2)) => match sp_lit(s2, ",\"value\":"@) {
                None => None,
                Some(s3) => match sp_opt_string(s3) {
                    None => None,
                    Some((v, s4)) => match sp_lit(s4, "}"@) {
                        None => None,
                        Some(s5) => Some((AmountV { currency_code: cc, value: v }, s5)),
                    },
                },
            },
        },
    }
}

proof fn lemma_sp_amount_enc(a: AmountV, rest: Seq<char>)
    ensures
        sp_amount(enc_amount(a) + rest) == Some((a, rest)),
{
    let t1 = enc_opt_str(a.currency_code) + ",\"value\":"@ + enc_opt_str(a.value) + "}"@ + rest;
    assert(enc_amount(a) + rest =~= "{\"currencyCode\":"@ + t1);
    lemma_sp_lit_enc("{\"currencyCode\":"@, t1);
    let t2 = ",\"value\":"@ + enc_opt_str(a.value) + "}"@ + rest;
    assert(t1 =~= enc_opt_str(a.currency_code) + t2);
    lemma_sp_opt_string_enc(a.currency_code, t2);
    let t3 = enc_opt_str(a.value) + "}"@ + rest;
    assert(t2 =~= ",\"value\":"@ + t3);
    lemma_sp_lit_enc(",\"value\":"@, t3);
    let t4 = "}"@ + rest;
    assert(t3 =~= enc_opt_str(a.value) + t4);
    lemma_sp_opt_string_enc(a.value, t4);
    lemma_sp_lit_enc("}"@, rest);
}

/// The encoding of an optional amount field: `null` when absent.
pub open spec fn enc_opt_amount(o: Option<AmountV>) -> Seq<char> {
    match o {
        None => "null"@,
        Some(a) => enc_amount(a),
    }
}

/// Parses an optional amount field: `null` or an amount object.
pub open spec fn sp_opt_amount(s: Seq<char>) -> Option<(Option<AmountV>, Seq<char>)> {
    if s.len() >= 1 && s[0] == 'n' {
        match sp_lit(s, "null"@) {
            Some(r) => Some((None, r)),
            None => None,
        }
    } else {
        match sp_amount(s) {
            Some((a, r)) => Some((Some(a), r)),
            None => None,
        }
    }
}

proof fn lemma_sp_opt_amount_enc(o: Option<AmountV>, rest: Seq<char>)
    ensures
        sp_opt_amount(enc_opt_amount(o) + rest) == Some((o, rest)),
{
    reveal_strlit("null");
    match o {
        None => {
            let s = "null"@ + rest;
            assert(s[0] == 'n');
            lemma_sp_lit_enc("null"@, rest);
        },
        Some(a) => {
            reveal_strlit("{\"currencyCode\":");
            let s = enc_amount(a) + rest;
            assert(s[0] == '{');
            lemma_sp_amount_enc(a, rest);
        },
    }
}

// ------------------------- performing customer -------------------------

/// The encoding of a performing-customer object.
pub open spec fn enc_customer(c: PerformingCustomerV) -> Seq<char> {
    "{\"displayName\":"@ + enc_opt_str(c.display_name) + "}"@
}

/// Parses a performing-customer object.
pub open spec fn sp_customer(s: Seq<char>) -> Option<(PerformingCustomerV, Seq<char>)> {
    match sp_lit(s, "{\"displayName\":"@) {
        None => None,
        Some(s1) => match sp_opt_string(s1) {
            None => None,
            Some((d, s2)) => match sp_lit(s2, "}"@) {
                None => None,
                Some(s3) => Some((PerformingCustomerV { display_name: d }, s3)),
            },
        },
    }
}

proof fn lemma_sp_customer_enc(c: PerformingCustomerV, rest: Seq<char>)
    ensures
        sp_customer(enc_customer(c) + rest) == Some((c, rest)),
{
    let t1 = enc_opt_str(c.display_name) + "}"@ + rest;
    assert(enc_customer(c) + rest =~= "{\"displayName\":"@ + t1);
    lemma_sp_lit_enc("{\"displayName\":"@, t1);
    let t2 = "}"@ + rest;
    assert(t1 =~= enc_opt_str(c.display_name) + t2);
    lemma_sp_opt_string_enc(c.display_name, t2);
    lemma_sp_lit_enc("}"@, rest);
}

/// The encoding of an optional performing-customer field.
pub open spec fn enc_opt_customer(o: Option<PerformingCustomerV>) -> Seq<char> {
    match o {
        None => "null"@,
        Some(c) => enc_customer(c),
    }
}

/// Parses an optional performing-customer field.
pub open spec fn sp_opt_customer(s: Seq<char>) -> Option<(Option<PerformingCustomerV>, Seq<char>)> {
    if s.len() >= 1 && s[0] == 'n' {
        match sp_lit(s, "null"@) {
            Some(r) => Some((None, r)),
            None => None,
        }
    } else {
        match sp_customer(s) {
            Some((c, r)) => Some((Some(c), r)),
            None => None,
        }
    }
}

proof fn lemma_sp_opt_customer_enc(o: Option<PerformingCustomerV>, rest: Seq<char>)
    ensures
        sp_opt_customer(enc_opt_customer(o) + rest) == Some((o, rest)),
{
    reveal_strlit("null");
    match o {
        None => {
            let s = "null"@ + rest;
            assert(s[0] == 'n');
            lemma_sp_lit_enc("null"@, rest);
        },
        Some(c) => {
            reveal_strlit("{\"displayName\":");
            let s = enc_customer(c) + rest;
            assert(s[0] == '{');
            lemma_sp_customer_enc(c, rest);
        },
    }
}

// ------------------------- transaction attributes -------------------------

/// The encoding of a transaction's attributes, every field present and in
/// a fixed order.
pub open spec fn enc_tx_attrs(a: TransactionAttributesV) -> Seq<char> {
    "{\"description\":"@ + enc_opt_str(a.description) + ",\"message\":"@ + enc_opt_str(a.message)
        + ",\"roundUp\":"@ + enc_opt_amount(a.round_up) + ",\"amount\":"@ + enc_opt_amount(a.amount)
        + ",\"performingCustomer\":"@ + enc_opt_customer(a.performing_customer)
        + ",\"settledAt\":"@ + enc_opt_str(a.settled_at) + "}"@
}

/// Parses a transaction's attributes.
#[verifier::opaque]
pub open spec fn sp_tx_attrs(s: Seq<char>) -> Option<(TransactionAttributesV, Seq<char>)> {
    match sp_lit(s, "{\"description\":"@) {
        None => None,
        Some(s1) => match sp_opt_string(s1) {
            None => None,
            Some((de, s2)) => match sp_lit(s2, ",\"message\":"@) {
                None => None,
                Some(s3) => match sp_opt_string(s3) {
                    None => None,
                    Some((me, s4)) => match sp_lit(s4, ",\"roundUp\":"@) {
                        None => None,
                        Some(s5) => match sp_opt_amount(s5) {
                            None => None,
                            Some((ru, s6)) => match sp_lit(s6, ",\"amount\":"@) {
                                None => None,
                                Some(s7) => match sp_opt_amount(s7) {
                                    None => None,
                                    Some((am, s8)) => match sp_lit(
                                        s8,
                                        ",\"performingCustomer\":"@,
                                    ) {
                                        None => None,
                                        Some(s9) => match sp_opt_customer(s9) {
                                            None => None,
                                            Some((pc, s10)) => match sp_lit(s10, ",\"settledAt\":"@) {
                                                None => None,
                                                Some(s11) => match sp_opt_string(s11) {
                                                    None => None,
                                                    Some((sa, s12)) => match sp_lit(s12, "}"@) {
                                                        None => None,
                                                        Some(s13) => Some(
                                                            (
                                                                TransactionAttributesV {
                                                                    description: de,
                                                                    message: me,
                                                                    round_up: ru,
                                                                    amount: am,
                                                                    performing_customer: pc,
                                                                    settled_at: sa,
                                                                },
                                                                s13,
                                                            ),
                                                        ),
                                                    },
                                                },
                                            },
                                        },
                                    },
                                },
                            },
                        },
                    },
                },
            },
        },
    }
}

proof fn lemma_assoc(a: Seq<char>, b: Seq<char>, c: Seq<char>)
    ensures
        (a + b) + c == a + (b + c),
{
    assert((a + b) + c =~= a + (b + c));
}

proof fn lemma_sp_tx_attrs_enc(a: TransactionAttributesV, rest: Seq<char>)
    ensures
        sp_tx_attrs(enc_tx_attrs(a) + rest) == Some((a, rest)),
{
    reveal(sp_tx_attrs);
    let x1 = "{\"description\":"@;
    let x2 = enc_opt_str(a.description);
    let x3 = ",\"message\":"@;
    let x4 = enc_opt_str(a.message);
    let x5 = ",\"roundUp\":"@;
    let x6 = enc_opt_amount(a.round_up);
    let x7 = ",\"amount\":"@;
    let x8 = enc_opt_amount(a.amount);
    let x9 = ",\"performingCustomer\":"@;
    let x10 = enc_opt_customer(a.performing_customer);
    let x11 = ",\"settledAt\":"@;
    let x12 = enc_opt_str(a.settled_at);
    let x13 = "}"@;
    let l2 = x1 + x2;
    let l3 = l2 + x3;
    let l4 = l3 + x4;
    let l5 = l4 + x5;
    let l6 = l5 + x6;
    let l7 = l6 + x7;
    let l8 = l7 + x8;
    let l9 = l8 + x9;
    let l10 = l9 + x10;
    let l11 = l10 + x11;
    let l12 = l11 + x12;
    let t13 = x13 + rest;
    let t12 = x12 + t13;
    let t11 = x11 + t12;
    let t10 = x10 + t11;
    let t9 = x9 + t10;
    let t8 = x8 + t9;
    let t7 = x7 + t8;
    let t6 = x6 + t7;
    let t5 = x5 + t6;
    let t4 = x4 + t5;
    let t3 = x3 + t4;
    let t2 = x2 + t3;
    assert(enc_tx_attrs(a) == l12 + x13);
    lemma_assoc(l12, x13, rest);
    lemma_assoc(l11, x12, t13);
    lemma_assoc(l10, x11, t12);
    lemma_assoc(l9, x10, t11);
    lemma_assoc(l8, x9, t10);
    lemma_assoc(l7, x8, t9);
    lemma_assoc(l6, x7, t8);
    lemma_assoc(l5, x6, t7);
    lemma_assoc(l4, x5, t6);
    lemma_assoc(l3, x4, t5);
    lemma_assoc(l2, x3, t4);
    lemma_assoc(x1, x2, t3);
    assert(enc_tx_attrs(a) + rest == x1 + t2);
    lemma_sp_lit_enc(x1, t2);
    lemma_sp_opt_string_enc(a.description, t3);
    lemma_sp_lit_enc(x3, t4);
    lemma_sp_opt_string_enc(a.message, t5);
    lemma_sp_lit_enc(x5, t6);
    lemma_sp_opt_amount_enc(a.round_up, t7);
    lemma_sp_lit_enc(x7, t8);
    lemma_sp_opt_amount_enc(a.amount, t9);
    lemma_sp_lit_enc(x9, t10);
    lemma_sp_opt_customer_enc(a.performing_customer, t11);
    lemma_sp_lit_enc(x11, t12);
    lemma_sp_opt_string_enc(a.settled_at, t13);
    lemma_sp_lit_enc(x13, rest);
}

// ------------------------- transactions -------------------------

/// The encoding of one transaction.
pub open spec fn enc_transaction(t: TransactionsV) -> Seq<char> {
    "{\"attributes\":"@ + enc_tx_attrs(t.attributes) + "}"@
}

/// Parses one transaction.
pub open spec fn sp_transaction(s: Seq<char>) -> Option<(TransactionsV, Seq<char>)> {
    match sp_lit(s, "{\"attributes\":"@) {
        None => None,
        Some(s1) => match sp_tx_attrs(s1) {
            None => None,
            Some((a, s2)) => match sp_lit(s2, "}"@) {
                None => None,
                Some(s3) => Some((TransactionsV { attributes: a }, s3)),
            },
        },
    }
}

proof fn lemma_sp_transaction_enc(t: TransactionsV, rest: Seq<char>)
    ensures
        sp_transaction(enc_transaction(t) + rest) == Some((t, rest)),
{
    let t1 = enc_tx_attrs(t.attributes) + "}"@ + rest;
    assert(enc_transaction(t) + rest =~= "{\"attributes\":"@ + t1);
    lemma_sp_lit_enc("{\"attributes\":"@, t1);
    let t2 = "}"@ + rest;
    assert(t1 =~= enc_tx_attrs(t.attributes) + t2);
    lemma_sp_tx_attrs_enc(t.attributes, t2);
    lemma_sp_lit_enc("}"@, rest);
}

// ------------------------- the snapshot array -------------------------

/// The encodings of the items past the first, each preceded by a comma.
pub open spec fn enc_items_sep(items: Seq<TransactionsV>) -> Seq<char>
    decreases items.len(),
{
    if items.len() == 0 {
        Seq::empty()
    } else {
        ","@ + enc_transaction(items[0]) + enc_items_sep(items.skip(1))
    }
}

/// The encoding of a whole transaction snapshot: a JSON array of the
/// items, in order.
pub open spec fn enc_transactions(items: Seq<TransactionsV>) -> Seq<char> {
    if items.len() == 0 {
        "[]"@
    } else {
        "["@ + enc_transaction(items[0]) + enc_items_sep(items.skip(1)) + "]"@
    }
}

/// Parses the items of a non-empty array, the closing bracket included.
pub open spec fn sp_tx_items(s: Seq<char>) -> Option<(Seq<TransactionsV>, Seq<char>)>
    decreases s.len(),
{
    match sp_transaction(s) {
        None => None,
        Some((v, r)) => if r.len() >= 1 && r[0] == ',' {
            if r.len() <= s.len() {
                match sp_tx_items(r.skip(1)) {
                    Some((vs, r2)) => Some((seq![v] + vs, r2)),
                    None => None,
                }
            } else {
                None
            }
        } else if r.len() >= 1 && r[0] == ']' {
            Some((seq![v], r.skip(1)))
        } else {
            None
        },
    }
}

/// Parses a transaction snapshot array.
pub open spec fn sp_transactions(s: Seq<char>) -> Option<(Seq<TransactionsV>, Seq<char>)> {
    if s.len() >= 2 && s[0] == '[' && s[1] == ']' {
        Some((Seq::empty(), s.skip(2)))
    } else if s.len() >= 1 && s[0] == '[' {
        sp_tx_items(s.skip(1))
    } else {
        None
    }
}

/// What loading a whole snapshot text yields: the items of the array,
/// provided nothing follows it.
pub open spec fn spec_loaded_snapshot(s: Seq<char>) -> Option<Seq<TransactionsV>> {
    match sp_transactions(s) {
        Some((vs, r)) => if r.len() == 0 {
            Some(vs)
        } else {
            None
        },
        None => None,
    }
}

#[verifier::rlimit(100)]
proof fn lemma_sp_items_enc(items: Seq<TransactionsV>, rest: Seq<char>)
    requires
        items.len() >= 1,
    ensures
        sp_tx_items(enc_transaction(items[0]) + (enc_items_sep(items.skip(1)) + ("]"@ + rest)))
            == Some((items, rest)),
    decreases items.len(),
{
    reveal_strlit("]");
    reveal_strlit(",");
    let tail = enc_items_sep(items.skip(1)) + ("]"@ + rest);
    let s = enc_transaction(items[0]) + tail;
    lemma_sp_transaction_enc(items[0], tail);
    if items.len() == 1 {
        assert(enc_items_sep(items.skip(1)) =~= Seq::<char>::empty());
        assert(tail =~= "]"@ + rest);
        assert(tail[0] == ']');
        assert(tail.skip(1) =~= rest);
        assert(seq![items[0]] =~= items);
    } else {
        let more = items.skip(1);
        let t0 = enc_transaction(more[0]);
        let s0 = enc_items_sep(more.skip(1));
        let e = "]"@ + rest;
        assert(enc_items_sep(more) == (","@ + t0) + s0);
        lemma_assoc(","@ + t0, s0, e);
        lemma_assoc(","@, t0, s0 + e);
        assert(tail == ","@ + (t0 + (s0 + e)));
        assert(tail[0] == ',');
        assert(tail.len() <= s.len());
        assert(tail.skip(1) =~= t0 + (s0 + e));
        lemma_sp_items_enc(more, rest);
        assert(seq![items[0]] + more =~= items);
    }
}

proof fn lemma_sp_transactions_enc(items: Seq<TransactionsV>, rest: Seq<char>)
    ensures
        sp_transactions(enc_transactions(items) + rest) == Some((items, rest)),
{
    let s = enc_transactions(items) + rest;
    if items.len() == 0 {
        reveal_strlit("[]");
        assert(s[0] == '[' && s[1] == ']');
        assert(s.skip(2) =~= rest);
    } else {
        reveal_strlit("[");
        reveal_strlit("]");
        reveal_strlit("{\"attributes\":");
        assert(s[0] == '[');
        assert(enc_transaction(items[0])[0] == '{');
        assert(s[1] == '{');
        assert(s.skip(1) =~= enc_transaction(items[0]) + (enc_items_sep(items.skip(1)) + ("]"@
            + rest)));
        lemma_sp_items_enc(items, rest);
    }
}

/// Loading an encoded snapshot yields the encoded items back, field for
/// field, absent options included: the snapshot round trip loses nothing.
pub proof fn lemma_snapshot_roundtrip(items: Seq<TransactionsV>)
    ensures
        spec_loaded_snapshot(enc_transactions(items)) == Some(items),
{
    lemma_sp_transactions_enc(items, Seq::empty());
    assert(enc_transactions(items) + Seq::<char>::empty() =~= enc_transactions(items));
}

// ------------------------- exec encoding -------------------------

/// Appends the encoding of an optional string field to the output.
fn push_opt_string(buf: &mut Vec<char>, o: &Option<String>)
    ensures
        final(buf)@ == old(buf)@ + enc_opt_str(o.deep_view()),
{
    match o {
        None => push_str_chars(buf, "null"),
        Some(v) => push_json_string(buf, v.as_str()),
    }
}

/// Appends the encoding of an amount object to the output.
fn push_amount(buf: &mut Vec<char>, a: &Amount)
    ensures
        final(buf)@ == old(buf)@ + enc_amount(a.deep_view()),
{
    push_str_chars(buf, "{\"currencyCode\":");
    push_opt_string(buf, &a.currency_code);
    push_str_chars(buf, ",\"value\":");
    push_opt_string(buf, &a.value);
    push_str_chars(buf, "}");
    proof {
        assert(buf@ =~= old(buf)@ + enc_amount(a.deep_view()));
    }
}

/// Appends the encoding of an optional amount field to the output.
fn push_opt_amount(buf: &mut Vec<char>, o: &Option<Amount>)
    ensures
        final(buf)@ == old(buf)@ + enc_opt_amount(o.deep_view()),
{
    match o {
        None => push_str_chars(buf, "null"),
        Some(a) => push_amount(buf, a),
    }
}

/// Appends the encoding of a performing-customer object to the output.
fn push_customer(buf: &mut Vec<char>, c: &PerformingCustomer)
    ensures
        final(buf)@ == old(buf)@ + enc_customer(c.deep_view()),
{
    push_str_chars(buf, "{\"displayName\":");
    push_opt_string(buf, &c.display_name);
    push_str_chars(buf, "}");
    proof {
        assert(buf@ =~= old(buf)@ + enc_customer(c.deep_view()));
    }
}

/// Appends the encoding of an optional performing-customer field.
fn push_opt_customer(buf: &mut Vec<char>, o: &Option<PerformingCustomer>)
    ensures
        final(buf)@ == old(buf)@ + enc_opt_customer(o.deep_view()),
{
    match o {
        None => push_str_chars(buf, "null"),
        Some(c) => push_customer(buf, c),
    }
}

/// Appends the encoding of a transaction's attributes to the output.
#[verifier::rlimit(100)]
fn push_tx_attrs(buf: &mut Vec<char>, a: &TransactionAttributes)
    ensures
        final(buf)@ == old(buf)@ + enc_tx_attrs(a.deep_view()),
{
    push_str_chars(buf, "{\"description\":");
    push_opt_string(buf, &a.description);
    push_str_chars(buf, ",\"message\":");
    push_opt_string(buf, &a.message);
    push_str_chars(buf, ",\"roundUp\":");
    push_opt_amount(buf, &a.round_up);
    push_str_chars(buf, ",\"amount\":");
    push_opt_amount(buf, &a.amount);
    push_str_chars(buf, ",\"performingCustomer\":");
    push_opt_customer(buf, &a.performing_customer);
    push_str_chars(buf, ",\"settledAt\":");
    push_opt_string(buf, &a.settled_at);
    push_str_chars(buf, "}");
    proof {
        assert(buf@ =~= old(buf)@ + enc_tx_attrs(a.deep_view()));
    }
}

/// Appends the encoding of one transaction to the output.
fn push_transaction(buf: &mut Vec<char>, t: &Transactions)
    ensures
        final(buf)@ == old(buf)@ + enc_transaction(t.deep_view()),
{
    push_str_chars(buf, "{\"attributes\":");
    push_tx_attrs(buf, &t.attributes);
    push_str_chars(buf, "}");
    proof {
        assert(buf@ =~= old(buf)@ + enc_transaction(t.deep_view()));
    }
}

proof fn lemma_enc_items_sep_snoc(a: Seq<TransactionsV>, x: TransactionsV)
    ensures
        enc_items_sep(a.push(x)) == enc_items_sep(a) + (","@ + enc_transaction(x)),
    decreases a.len(),
{
    if a.len() == 0 {
        assert(a.push(x)[0] == x);
        assert(a.push(x).skip(1) =~= Seq::<TransactionsV>::empty());
        assert(enc_items_sep(a.push(x)) == ","@ + enc_transaction(x) + enc_items_sep(
            a.push(x).skip(1),
        ));
        assert(","@ + enc_transaction(x) + Seq::<char>::empty() =~= ","@ + enc_transaction(x));
        assert(enc_items_sep(a) =~= Seq::<char>::empty());
        assert(Seq::<char>::empty() + (","@ + enc_transaction(x)) =~= ","@ + enc_transaction(x));
    } else {
        lemma_enc_items_sep_snoc(a.skip(1), x);
        assert(a.push(x)[0] == a[0]);
        assert(a.push(x).skip(1) =~= a.skip(1).push(x));
        assert(","@ + enc_transaction(a[0]) + (enc_items_sep(a.skip(1)) + (","@ + enc_transaction(
            x,
        ))) =~= (","@ + enc_transaction(a[0]) + enc_items_sep(a.skip(1))) + (","@
            + enc_transaction(x)));
    }
}

/// Appends the encoding of a transaction array to the output.
#[verifier::rlimit(100)]
fn push_transactions_array(buf: &mut Vec<char>, txs: &Vec<Transactions>)
    ensures
        final(buf)@ == old(buf)@ + enc_transactions(txs.deep_view()),
{
    let ghost items = txs.deep_view();
    if txs.len() == 0 {
        push_str_chars(buf, "[]");
        proof {
            assert(items.len() == 0);
        }
        return ;
    }
    push_str_chars(buf, "[");
    push_transaction(buf, &txs[0]);
    proof {
        assert(items[0] == txs@[0].deep_view());
        assert(items.take(1).skip(1) =~= Seq::<TransactionsV>::empty());
        assert(buf@ =~= old(buf)@ + ("["@ + enc_transaction(items[0]) + enc_items_sep(
            items.take(1).skip(1),
        )));
    }
    let n = txs.len();
    let mut k: usize = 1;
    while k < n
        invariant
            1 <= k <= n,
            n == txs@.len(),
            items == txs.deep_view(),
            items.len() == n,
            buf@ == old(buf)@ + ("["@ + enc_transaction(items[0]) + enc_items_sep(
                items.take(k as int).skip(1),
            )),
        decreases n - k,
    {
        let ghost part = items.take(k as int).skip(1);
        push_str_chars(buf, ",");
        push_transaction(buf, &txs[k]);
        proof {
            assert(items[k as int] == txs@[k as int].deep_view());
            assert(items.take(k as int + 1).skip(1) =~= part.push(items[k as int]));
            lemma_enc_items_sep_snoc(part, items[k as int]);
            assert((old(buf)@ + ("["@ + enc_transaction(items[0]) + enc_items_sep(part))) + ","@
                + enc_transaction(items[k as int]) =~= old(buf)@ + ("["@ + enc_transaction(items[0])
                + (enc_items_sep(part) + (","@ + enc_transaction(items[k as int])))));
        }
        k = k + 1;
    }
    push_str_chars(buf, "]");
    proof {
        assert(items.take(n as int) =~= items);
        assert(old(buf)@ + ("["@ + enc_transaction(items[0]) + enc_items_sep(items.skip(1))) + "]"@
            =~= old(buf)@ + enc_transactions(items));
    }
}

/// Encodes a transaction snapshot as its canonical JSON text.
pub fn encode_transactions(txs: &Vec<Transactions>) -> (r: String)
    ensures
        r@ == enc_transactions(txs.deep_view()),
{
    let mut buf: Vec<char> = Vec::new();
    push_transactions_array(&mut buf, txs);
    proof {
        assert(Seq::<char>::empty() + enc_transactions(txs.deep_view()) =~= enc_transactions(
            txs.deep_view(),
        ));
    }
    chars_to_string(buf)
}

/// Encodes one page of the paginated transaction listing as its
/// canonical JSON text.
pub fn encode_page(d: &DataStruct) -> (r: String)
    ensures
        r@ == enc_page(d.deep_view()),
{
    let mut buf: Vec<char> = Vec::new();
    push_str_chars(&mut buf, "{\"data\":");
    push_transactions_array(&mut buf, &d.data);
    push_str_chars(&mut buf, ",\"links\":{\"next\":");
    push_opt_string(&mut buf, &d.links.next);
    push_str_chars(&mut buf, "}}");
    proof {
        assert(buf@ =~= enc_page(d.deep_view()));
    }
    chars_to_string(buf)
}

// ------------------------- exec parsing -------------------------

/// Parses an expected literal starting at `i`, returning the position
/// past it.
fn expect_lit(s: &Vec<char>, i: usize, lit: &str) -> (r: Option<usize>)
    requires
        i <= s@.len(),
    ensures
        match r {
            Some(j) => i <= j <= s@.len() && j as int == i as int + lit@.len() && sp_lit(
                s@.skip(i as int),
                lit@,
            ) == Some(s@.skip(j as int)),
            None => sp_lit(s@.skip(i as int), lit@) is None,
        },
{
    let n = lit.unicode_len();
    if s.len() - i < n {
        proof {
            assert(s@.skip(i as int).len() < lit@.len());
        }
        return None;
    }
    let mut k: usize = 0;
    while k < n
        invariant
            0 <= k <= n,
            n == lit@.len(),
            i + n <= s@.len(),
            i + n <= usize::MAX,
            forall|m: int| 0 <= m < k ==> s@[i + m] == lit@[m],
        decreases n - k,
    {
        if s[i + k] != lit.get_char(k) {
            proof {
                assert(s@.skip(i as int).take(n as int)[k as int] == s@[i + k]);
                assert(s@.skip(i as int).take(n as int) != lit@);
            }
            return None;
        }
        k = k + 1;
    }
    proof {
        assert(s@.skip(i as int).take(n as int) =~= lit@);
        assert(s@.skip(i as int).skip(n as int) =~= s@.skip(i as int + n as int));
    }
    Some(i + n)
}

/// Parses an optional string field starting at `i`.
fn parse_opt_string(s: &Vec<char>, i: usize) -> (r: Option<(Option<String>, usize)>)
    requires
        i <= s@.len(),
    ensures
        match r {
            Some((v, j)) => i <= j <= s@.len() && sp_opt_string(s@.skip(i as int)) == Some(
                (v.deep_view(), s@.skip(j as int)),
            ),
            None => sp_opt_string(s@.skip(i as int)) is None,
        },
{
    if i < s.len() && s[i] == 'n' {
        proof {
            assert(s@.skip(i as int)[0] == 'n');
        }
        match expect_lit(s, i, "null") {
            Some(j) => Some((None, j)),
            None => None,
        }
    } else {
        proof {
            if i < s@.len() {
                assert(s@.skip(i as int)[0] == s@[i as int]);
            }
        }
        match parse_json_string(s, i) {
            Some((v, j)) => Some((Some(v), j)),
            None => None,
        }
    }
}

/// Parses an amount object starting at `i`.
fn parse_amount(s: &Vec<char>, i: usize) -> (r: Option<(Amount, usize)>)
    requires
        i <= s@.len(),
    ensures
        match r {
            Some((v, j)) => i < j <= s@.len() && sp_amount(s@.skip(i as int)) == Some(
                (v.deep_view(), s@.skip(j as int)),
            ),
            None => sp_amount(s@.skip(i as int)) is None,
        },
{
    proof {
        reveal_strlit("{\"currencyCode\":");
    }
    let j1 = match expect_lit(s, i, "{\"currencyCode\":") {
        Some(j) => j,
        None => {
            return None;
        },
    };
    let (cc, j2) = match parse_opt_string(s, j1) {
        Some(p) => p,
        None => {
            return None;
        },
    };
    let j3 = match expect_lit(s, j2, ",\"value\":") {
        Some(j) => j,
        None => {
            return None;
        },
    };
    let (v, j4) = match parse_opt_string(s, j3) {
        Some(p) => p,
        None => {
            return None;
        },
    };
    let j5 = match expect_lit(s, j4, "}") {
        Some(j) => j,
        None => {
            return None;
        },
    };
    Some((Amount { currency_code: cc, value: v }, j5))
}

/// Parses an optional amount field starting at `i`.
fn parse_opt_amount(s: &Vec<char>, i: usize) -> (r: Option<(Option<Amount>, usize)>)
    requires
        i <= s@.len(),
    ensures
        match r {
            Some((v, j)) => i <= j <= s@.len() && sp_opt_amount(s@.skip(i as int)) == Some(
                (v.deep_view(), s@.skip(j as int)),
            ),
            None => sp_opt_amount(s@.skip(i as int)) is None,
        },
{
    if i < s.len() && s[i] == 'n' {
        proof {
            assert(s@.skip(i as int)[0] == 'n');
        }
        match expect_lit(s, i, "null") {
            Some(j) => Some((None, j)),
            None => None,
        }
    } else {
        proof {
            if i < s@.len() {
                assert(s@.skip(i as int)[0] == s@[i as int]);
            }
        }
        match parse_amount(s, i) {
            Some((a, j)) => Some((Some(a), j)),
            None => None,
        }
    }
}

/// Parses a performing-customer object starting at `i`.
fn parse_customer(s: &Vec<char>, i: usize) -> (r: Option<(PerformingCustomer, usize)>)
    requires
        i <= s@.len(),
    ensures
        match r {
            Some((v, j)) => i < j <= s@.len() && sp_customer(s@.skip(i as int)) == Some(
                (v.deep_view(), s@.skip(j as int)),
            ),
            None => sp_customer(s@.skip(i as int)) is None,
        },
{
    proof {
        reveal_strlit("{\"displayName\":");
    }
    let j1 = match expect_lit(s, i, "{\"displayName\":") {
        Some(j) => j,
        None => {
            return None;
        },
    };
    let (d, j2) = match parse_opt_string(s, j1) {
        Some(p) => p,
        None => {
            return None;
        },
    };
    let j3 = match expect_lit(s, j2, "}") {
        Some(j) => j,
        None => {
            return None;
        },
    };
    Some((PerformingCustomer { display_name: d }, j3))
}

/// Parses an optional performing-customer field starting at `i`.
fn parse_opt_customer(s: &Vec<char>, i: usize) -> (r: Option<(Option<PerformingCustomer>, usize)>)
    requires
        i <= s@.len(),
    ensures
        match r {
            Some((v, j)) => i <= j <= s@.len() && sp_opt_customer(s@.skip(i as int)) == Some(
                (v.deep_view(), s@.skip(j as int)),
            ),
            None => sp_opt_customer(s@.skip(i as int)) is None,
        },
{
    if i < s.len() && s[i] == 'n' {
        proof {
            assert(s@.skip(i as int)[0] == 'n');
        }
        match expect_lit(s, i, "null") {
            Some(j) => Some((None, j)),
            None => None,
        }
    } else {
        proof {
            if i < s@.len() {
                assert(s@.skip(i as int)[0] == s@[i as int]);
            }
        }
        match parse_customer(s, i) {
            Some((c, j)) => Some((Some(c), j)),
            None => None,
        }
    }
}

/// Parses a transaction's attributes starting at `i`.
fn parse_tx_attrs(s: &Vec<char>, i: usize) -> (r: Option<(TransactionAttributes, usize)>)
    requires
        i <= s@.len(),
    ensures
        match r {
            Some((v, j)) => i < j <= s@.len() && sp_tx_attrs(s@.skip(i as int)) == Some(
                (v.deep_view(), s@.skip(j as int)),
            ),
            None => sp_tx_attrs(s@.skip(i as int)) is None,
        },
{
    proof {
        reveal(sp_tx_attrs);
        reveal_strlit("{\"description\":");
    }
    let j1 = match expect_lit(s, i, "{\"description\":") {
        Some(j) => j,
        None => {
            return None;
        },
    };
    let (de, j2) = match parse_opt_string(s, j1) {
        Some(p) => p,
        None => {
            return None;
        },
    };
    let j3 = match expect_lit(s, j2, ",\"message\":") {
        Some(j) => j,
        None => {
            return None;
        },
    };
    let (me, j4) = match parse_opt_string(s, j3) {
        Some(p) => p,
        None => {
            return None;
        },
    };
    let j5 = match expect_lit(s, j4, ",\"roundUp\":") {
        Some(j) => j,
        None => {
            return None;
        },
    };
    let (ru, j6) = match parse_opt_amount(s, j5) {
        Some(p) => p,
        None => {
            return None;
        },
    };
    let j7 = match expect_lit(s, j6, ",\"amount\":") {
        Some(j) => j,
        None => {
            return None;
        },
    };
    let (am, j8) = match parse_opt_amount(s, j7) {
        Some(p) => p,
        None => {
            return None;
        },
    };
    let j9 = match expect_lit(s, j8, ",\"performingCustomer\":") {
        Some(j) => j,
        None => {
            return None;
        },
    };
    let (pc, j10) = match parse_opt_customer(s, j9) {
        Some(p) => p,
        None => {
            return None;
        },
    };
    let j11 = match expect_lit(s, j10, ",\"settledAt\":") {
        Some(j) => j,
        None => {
            return None;
        },
    };
    let (sa, j12) = match parse_opt_string(s, j11) {
        Some(p) => p,
        None => {
            return None;
        },
    };
    let j13 = match expect_lit(s, j12, "}") {
        Some(j) => j,
        None => {
            return None;
        },
    };
    Some(
        (
            TransactionAttributes {
                description: de,
                message: me,
                round_up: ru,
                amount: am,
                performing_customer: pc,
                settled_at: sa,
            },
            j13,
        ),
    )
}

/// Parses one transaction starting at `i`.
fn parse_transaction(s: &Vec<char>, i: usize) -> (r: Option<(Transactions, usize)>)
    requires
        i <= s@.len(),
    ensures
        match r {
            Some((v, j)) => i < j <= s@.len() && sp_transaction(s@.skip(i as int)) == Some(
                (v.deep_view(), s@.skip(j as int)),
            ),
            None => sp_transaction(s@.skip(i as int)) is None,
        },
{
    proof {
        reveal_strlit("{\"attributes\":");
    }
    let j1 = match expect_lit(s, i, "{\"attributes\":") {
        Some(j) => j,
        None => {
            return None;
        },
    };
    let (a, j2) = match parse_tx_attrs(s, j1) {
        Some(p) => p,
        None => {
            return None;
        },
    };
    let j3 = match expect_lit(s, j2, "}") {
        Some(j) => j,
        None => {
            return None;
        },
    };
    Some((Transactions { attributes: a }, j3))
}

/// Holds when parsing the remaining items `cur` and prepending `accv` to
/// them agrees with parsing all the items `orig`.
spec fn items_rel(orig: Seq<char>, accv: Seq<TransactionsV>, cur: Seq<char>) -> bool {
    sp_tx_items(orig) == match sp_tx_items(cur) {
        Some((vs, r)) => Some::<(Seq<TransactionsV>, Seq<char>)>((accv + vs, r)),
        None => None::<(Seq<TransactionsV>, Seq<char>)>,
    }
}

proof fn lemma_items_rel_comma(
    orig: Seq<char>,
    accv: Seq<TransactionsV>,
    cur: Seq<char>,
    txv: TransactionsV,
    r: Seq<char>,
)
    requires
        items_rel(orig, accv, cur),
        sp_transaction(cur) == Some((txv, r)),
        r.len() >= 1,
        r[0] == ',',
        r.len() <= cur.len(),
    ensures
        items_rel(orig, accv.push(txv), r.skip(1)),
{
    if let Some((vs, r2)) = sp_tx_items(r.skip(1)) {
        assert(sp_tx_items(cur) == Some((seq![txv] + vs, r2)));
        assert(accv + (seq![txv] + vs) =~= accv.push(txv) + vs);
    } else {
        assert(sp_tx_items(cur) is None);
    }
}

proof fn lemma_items_rel_close(
    orig: Seq<char>,
    accv: Seq<TransactionsV>,
    cur: Seq<char>,
    txv: TransactionsV,
    r: Seq<char>,
)
    requires
        items_rel(orig, accv, cur),
        sp_transaction(cur) == Some((txv, r)),
        r.len() >= 1,
        r[0] == ']',
    ensures
        sp_tx_items(orig) == Some((accv.push(txv), r.skip(1))),
{
    assert(sp_tx_items(cur) == Some((seq![txv], r.skip(1))));
    assert(accv + seq![txv] =~= accv.push(txv));
}

proof fn lemma_items_rel_stuck(
    orig: Seq<char>,
    accv: Seq<TransactionsV>,
    cur: Seq<char>,
    txv: TransactionsV,
    r: Seq<char>,
)
    requires
        items_rel(orig, accv, cur),
        sp_transaction(cur) == Some((txv, r)),
        r.len() == 0 || (r[0] != ',' && r[0] != ']'),
    ensures
        sp_tx_items(orig) is None,
{
    assert(sp_tx_items(cur) is None);
}

proof fn lemma_items_rel_fail(orig: Seq<char>, accv: Seq<TransactionsV>, cur: Seq<char>)
    requires
        items_rel(orig, accv, cur),
        sp_transaction(cur) is None,
    ensures
        sp_tx_items(orig) is None,
{
    assert(sp_tx_items(cur) is None);
}

/// Parses a transaction array starting at `i`, returning the items and
/// the position past the closing bracket.
#[verifier::rlimit(100)]
fn parse_tx_array(s: &Vec<char>, i: usize) -> (r: Option<(Vec<Transactions>, usize)>)
    requires
        i <= s@.len(),
    ensures
        match r {
            Some((v, j)) => i <= j <= s@.len() && sp_transactions(s@.skip(i as int)) == Some(
                (v.deep_view(), s@.skip(j as int)),
            ),
            None => sp_transactions(s@.skip(i as int)) is None,
        },
{
    let ghost whole = s@.skip(i as int);
    if i == s.len() || s[i] != '[' {
        proof {
            if i < s@.len() {
                assert(whole[0] == s@[i as int]);
            }
        }
        return None;
    }
    proof {
        assert(whole[0] == '[');
    }
    if i + 1 < s.len() && s[i + 1] == ']' {
        let empty: Vec<Transactions> = Vec::new();
        proof {
            assert(whole[1] == s@[i as int + 1]);
            assert(whole.skip(2) =~= s@.skip(i as int + 2));
            assert(empty.deep_view() =~= Seq::<TransactionsV>::empty());
        }
        return Some((empty, i + 2));
    }
    let ghost orig = s@.skip(i as int + 1);
    proof {
        if i + 1 < s@.len() {
            assert(whole[1] == s@[i as int + 1]);
        }
        assert(sp_transactions(whole) == sp_tx_items(orig)) by {
            assert(whole.skip(1) =~= orig);
        }
        if let Some((vs, r)) = sp_tx_items(orig) {
            assert(Seq::<TransactionsV>::empty() + vs =~= vs);
        }
    }
    let mut acc: Vec<Transactions> = Vec::new();
    let mut j: usize = i + 1;
    proof {
        assert(acc.deep_view() =~= Seq::<TransactionsV>::empty());
    }
    loop
        invariant
            i + 1 <= j <= s@.len(),
            orig == s@.skip(i as int + 1),
            whole == s@.skip(i as int),
            sp_transactions(whole) == sp_tx_items(orig),
            items_rel(orig, acc.deep_view(), s@.skip(j as int)),
        decreases s@.len() - j,
    {
        let ghost cur = s@.skip(j as int);
        let ghost accv = acc.deep_view();
        let (tx, j2) = match parse_transaction(s, j) {
            Some(p) => p,
            None => {
                proof {
                    lemma_items_rel_fail(orig, accv, cur);
                }
                return None;
            },
        };
        let ghost txv = tx.deep_view();
        let ghost r = s@.skip(j2 as int);
        if j2 < s.len() && s[j2] == ',' {
            proof {
                assert(r[0] == ',');
                lemma_items_rel_comma(orig, accv, cur, txv, r);
                assert(r.skip(1) =~= s@.skip(j2 as int + 1));
            }
            acc.push(tx);
            proof {
                assert(acc.deep_view() =~= accv.push(txv));
            }
            j = j2 + 1;
        } else if j2 < s.len() && s[j2] == ']' {
            proof {
                assert(r[0] == ']');
                lemma_items_rel_close(orig, accv, cur, txv, r);
            }
            acc.push(tx);
            proof {
                assert(acc.deep_view() =~= accv.push(txv));
                assert(r.skip(1) =~= s@.skip(j2 as int + 1));
            }
            return Some((acc, j2 + 1));
        } else {
            proof {
                if r.len() >= 1 {
                    assert(r[0] == s@[j2 as int]);
                }
                lemma_items_rel_stuck(orig, accv, cur, txv, r);
            }
            return None;
        }
    }
}

/// Loads a transaction snapshot from the canonical text that
/// `encode_transactions` writes: the items of the array, or nothing when
/// the text is not a whole snapshot in that form.
pub fn parse_transactions(text: &str) -> (r: Option<Vec<Transactions>>)
    ensures
        match r {
            Some(v) => spec_loaded_snapshot(text@) == Some(v.deep_view()),
            None => spec_loaded_snapshot(text@) is None,
        },
{
    let s = str_to_chars(text);
    proof {
        assert(s@.skip(0) =~= s@);
    }
    match parse_tx_array(&s, 0) {
        Some((v, j)) => {
            if j == s.len() {
                proof {
                    assert(s@.skip(j as int).len() == 0);
                }
                Some(v)
            } else {
                proof {
                    assert(s@.skip(j as int).len() != 0);
                }
                None
            }
        },
        None => None,
    }
}

/// Loads one page of the paginated listing from the canonical text that
/// `encode_page` writes: the page, or nothing when the text is not a
/// whole page in that form. A live body from the endpoint is decoded at
/// the application edge instead; this pair states the page schema
/// exactly and is what the page round-trip law speaks of.
pub fn parse_page(text: &str) -> (r: Option<DataStruct>)
    ensures
        match r {
            Some(v) => spec_loaded_page(text@) == Some(v.deep_view()),
            None => spec_loaded_page(text@) is None,
        },
{
    let s = str_to_chars(text);
    proof {
        assert(s@.skip(0) =~= s@);
    }
    let j1 = match expect_lit(&s, 0, "{\"data\":") {
        Some(j) => j,
        None => {
            return None;
        },
    };
    let (txs, j2) = match parse_tx_array(&s, j1) {
        Some(p) => p,
        None => {
            return None;
        },
    };
    let j3 = match expect_lit(&s, j2, ",\"links\":{\"next\":") {
        Some(j) => j,
        None => {
            return None;
        },
    };
    let (nx, j4) = match parse_opt_string(&s, j3) {
        Some(p) => p,
        None => {
            return None;
        },
    };
    let j5 = match expect_lit(&s, j4, "}}") {
        Some(j) => j,
        None => {
            return None;
        },
    };
    if j5 == s.len() {
        proof {
            assert(s@.skip(j5 as int).len() == 0);
        }
        Some(DataStruct { data: txs, links: Links { next: nx } })
    } else {
        proof {
            assert(s@.skip(j5 as int).len() != 0);
        }
        None
    }
}

// ------------------------- decimal integers -------------------------

/// The decimal digits of a natural number, most significant first.
pub open spec fn dec_digits(n: nat) -> Seq<char>
    decreases n,
{
    if n < 10 {
        seq![hex_digit(n as int)]
    } else {
        dec_digits(n / 10) + seq![hex_digit((n % 10) as int)]
    }
}

/// The encoding of a signed integer in decimal.
pub open spec fn enc_i32(n: int) -> Seq<char> {
    if n < 0 {
        seq!['-'] + dec_digits((-n) as nat)
    } else {
        dec_digits(n as nat)
    }
}

/// Whether a character is a decimal digit.
pub open spec fn is_digit(c: char) -> bool {
    0 <= hex_val(c) <= 9
}

/// Splits the longest run of decimal digits off the front of the input.
pub open spec fn sp_digits(s: Seq<char>) -> (Seq<char>, Seq<char>)
    decreases s.len(),
{
    if s.len() == 0 || !is_digit(s[0]) {
        (Seq::empty(), s)
    } else {
        let dr = sp_digits(s.skip(1));
        (seq![s[0]] + dr.0, dr.1)
    }
}

/// The value of a run of decimal digits.
pub open spec fn digits_val(d: Seq<char>) -> int
    decreases d.len(),
{
    if d.len() == 0 {
        0
    } else {
        digits_val(d.drop_last()) * 10 + hex_val(d.last())
    }
}

/// Parses a signed decimal integer that fits a thirty-two-bit value.
pub open spec fn sp_i32(s: Seq<char>) -> Option<(i32, Seq<char>)> {
    let neg = s.len() >= 1 && s[0] == '-';
    let body = if neg {
        s.skip(1)
    } else {
        s
    };
    let dr = sp_digits(body);
    if dr.0.len() == 0 {
        None
    } else {
        let v = if neg {
            -digits_val(dr.0)
        } else {
            digits_val(dr.0)
        };
        if i32::MIN <= v <= i32::MAX {
            Some((v as i32, dr.1))
        } else {
            None
        }
    }
}

proof fn lemma_dec_digits_are_digits(n: nat)
    ensures
        dec_digits(n).len() >= 1,
        forall|i: int| 0 <= i < dec_digits(n).len() ==> is_digit(#[trigger] dec_digits(n)[i]),
    decreases n,
{
    if n < 10 {
        assert(is_digit(hex_digit(n as int))) by {
            lemma_hex_roundtrip(n as int);
        }
    } else {
        lemma_dec_digits_are_digits(n / 10);
        assert(is_digit(hex_digit((n % 10) as int))) by {
            lemma_hex_roundtrip((n % 10) as int);
        }
        assert(forall|i: int|
            0 <= i < dec_digits(n).len() ==> is_digit(#[trigger] dec_digits(n)[i])) by {
            let d = dec_digits(n / 10);
            assert(forall|i: int|
                0 <= i < dec_digits(n).len() ==> dec_digits(n)[i] == if i < d.len() {
                    d[i]
                } else {
                    hex_digit((n % 10) as int)
                });
        }
    }
}

proof fn lemma_sp_digits_prefix(d: Seq<char>, rest: Seq<char>)
    requires
        forall|i: int| 0 <= i < d.len() ==> is_digit(#[trigger] d[i]),
        rest.len() == 0 || !is_digit(rest[0]),
    ensures
        sp_digits(d + rest) == (d, rest),
    decreases d.len(),
{
    if d.len() == 0 {
        assert(d + rest =~= rest);
    } else {
        lemma_sp_digits_prefix(d.skip(1), rest);
        assert((d + rest).skip(1) =~= d.skip(1) + rest);
        assert((d + rest)[0] == d[0]);
        assert(seq![d[0]] + d.skip(1) =~= d);
    }
}

proof fn lemma_digits_val_dec(n: nat)
    ensures
        digits_val(dec_digits(n)) == n,
    decreases n,
{
    if n < 10 {
        let d = dec_digits(n);
        assert(d.drop_last() =~= Seq::<char>::empty());
        assert(digits_val(Seq::<char>::empty()) == 0);
        assert(digits_val(d) == digits_val(d.drop_last()) * 10 + hex_val(d.last()));
        assert(d.last() == hex_digit(n as int));
        lemma_hex_roundtrip(n as int);
    } else {
        lemma_digits_val_dec(n / 10);
        let d = dec_digits(n);
        let hi = dec_digits(n / 10);
        assert(d.drop_last() =~= hi);
        assert(d.last() == hex_digit((n % 10) as int));
        lemma_hex_roundtrip((n % 10) as int);
        lemma_fundamental_div_mod(n as int, 10);
    }
}

proof fn lemma_digits_val_nonneg(d: Seq<char>)
    requires
        forall|i: int| 0 <= i < d.len() ==> is_digit(#[trigger] d[i]),
    ensures
        digits_val(d) >= 0,
    decreases d.len(),
{
    if d.len() > 0 {
        lemma_digits_val_nonneg(d.drop_last());
        assert(is_digit(d.last()));
    }
}

proof fn lemma_sp_i32_enc(n: int, rest: Seq<char>)
    requires
        i32::MIN <= n <= i32::MAX,
        rest.len() == 0 || !is_digit(rest[0]),
    ensures
        sp_i32(enc_i32(n) + rest) == Some((n as i32, rest)),
{
    let s = enc_i32(n) + rest;
    if n < 0 {
        let m = (-n) as nat;
        lemma_dec_digits_are_digits(m);
        assert(s[0] == '-');
        assert(s.skip(1) =~= dec_digits(m) + rest);
        lemma_sp_digits_prefix(dec_digits(m), rest);
        lemma_digits_val_dec(m);
    } else {
        let m = n as nat;
        lemma_dec_digits_are_digits(m);
        assert(s[0] == dec_digits(m)[0]);
        assert(is_digit(s[0]));
        assert(s[0] != '-');
        assert(s =~= dec_digits(m) + rest);
        lemma_sp_digits_prefix(dec_digits(m), rest);
        lemma_digits_val_dec(m);
    }
}

/// Appends the decimal digits of an unsigned value to the output.
fn push_u32_digits(buf: &mut Vec<char>, n: u32)
    ensures
        final(buf)@ == old(buf)@ + dec_digits(n as nat),
    decreases n,
{
    if n < 10 {
        buf.push(hex_digit_char(n));
        proof {
            assert(old(buf)@ + dec_digits(n as nat) =~= old(buf)@.push(hex_digit(n as int)));
        }
    } else {
        push_u32_digits(buf, n / 10);
        buf.push(hex_digit_char(n % 10));
        proof {
            assert(old(buf)@ + dec_digits(n as nat) =~= (old(buf)@ + dec_digits(
                (n / 10) as nat,
            )).push(hex_digit((n % 10) as int)));
        }
    }
}

/// Appends the decimal encoding of a signed value to the output.
fn push_i32(buf: &mut Vec<char>, n: i32)
    ensures
        final(buf)@ == old(buf)@ + enc_i32(n as int),
{
    if n < 0 {
        buf.push('-');
        let m = (-(n as i64)) as u32;
        proof {
            assert(m as nat == (-(n as int)) as nat);
        }
        push_u32_digits(buf, m);
        proof {
            assert(old(buf)@ + enc_i32(n as int) =~= (old(buf)@.push('-')) + dec_digits(
                (-(n as int)) as nat,
            ));
        }
    } else {
        push_u32_digits(buf, n as u32);
    }
}

/// Holds when the digit run of `cur` extended by the already-read digits
/// `accd` is the digit run of `orig`.
spec fn digits_rel(orig: Seq<char>, accd: Seq<char>, cur: Seq<char>) -> bool {
    sp_digits(orig) == (accd + sp_digits(cur).0, sp_digits(cur).1)
}

proof fn lemma_digits_rel_step(orig: Seq<char>, accd: Seq<char>, cur: Seq<char>)
    requires
        digits_rel(orig, accd, cur),
        cur.len() >= 1,
        is_digit(cur[0]),
    ensures
        digits_rel(orig, accd.push(cur[0]), cur.skip(1)),
{
    assert(sp_digits(cur) == (seq![cur[0]] + sp_digits(cur.skip(1)).0, sp_digits(cur.skip(1)).1));
    assert(accd + (seq![cur[0]] + sp_digits(cur.skip(1)).0) =~= accd.push(cur[0]) + sp_digits(
        cur.skip(1),
    ).0);
}

proof fn lemma_digits_val_snoc(d: Seq<char>, c: char)
    ensures
        digits_val(d.push(c)) == digits_val(d) * 10 + hex_val(c),
{
    assert(d.push(c).drop_last() =~= d);
    assert(d.push(c).last() == c);
}

/// Parses a signed decimal integer starting at `i`, rejecting values
/// outside the thirty-two-bit range.
#[verifier::rlimit(100)]
fn parse_i32(s: &Vec<char>, i: usize) -> (r: Option<(i32, usize)>)
    requires
        i <= s@.len(),
    ensures
        match r {
            Some((v, j)) => i <= j <= s@.len() && sp_i32(s@.skip(i as int)) == Some(
                (v, s@.skip(j as int)),
            ),
            None => sp_i32(s@.skip(i as int)) is None,
        },
{
    let neg = i < s.len() && s[i] == '-';
    let start = if neg {
        i + 1
    } else {
        i
    };
    let ghost body = s@.skip(start as int);
    proof {
        if i < s@.len() {
            assert(s@.skip(i as int)[0] == s@[i as int]);
        }
        if neg {
            assert(s@.skip(i as int).skip(1) =~= body);
        }
        assert(Seq::<char>::empty() + sp_digits(body).0 =~= sp_digits(body).0);
    }
    let mut j: usize = start;
    let mut acc: u64 = 0;
    let bound: u64 = 0x1_0000_0000;
    loop
        invariant
            start <= j <= s@.len(),
            i <= start <= i + 1,
            body == s@.skip(start as int),
            digits_rel(body, s@.subrange(start as int, j as int), s@.skip(j as int)),
            forall|m: int| start <= m < j ==> is_digit(#[trigger] s@[m]),
            bound == 0x1_0000_0000,
            ({
                let dv = digits_val(s@.subrange(start as int, j as int));
                &&& (dv < 0x1_0000_0000 ==> acc == dv)
                &&& (dv >= 0x1_0000_0000 ==> acc >= 0x1_0000_0000)
                &&& acc <= 0x10_0000_0000
            }),
        ensures
            start <= j <= s@.len(),
            digits_rel(body, s@.subrange(start as int, j as int), s@.skip(j as int)),
            forall|m: int| start <= m < j ==> is_digit(#[trigger] s@[m]),
            ({
                let dv = digits_val(s@.subrange(start as int, j as int));
                &&& (dv < 0x1_0000_0000 ==> acc == dv)
                &&& (dv >= 0x1_0000_0000 ==> acc >= 0x1_0000_0000)
            }),
            j == s@.len() || !is_digit(s@[j as int]),
        decreases s@.len() - j,
    {
        let ghost part = s@.subrange(start as int, j as int);
        let ghost cur = s@.skip(j as int);
        if j == s.len() {
            break ;
        }
        let c = s[j];
        proof {
            assert(cur[0] == c);
        }
        let d = hex_val_char(c);
        if d < 0 || d > 9 {
            break ;
        }
        let ghost part2 = s@.subrange(start as int, j as int + 1);
        proof {
            assert(part2 =~= part.push(c));
            assert(cur.skip(1) =~= s@.skip(j as int + 1));
            lemma_digits_rel_step(body, part, cur);
            lemma_digits_val_snoc(part, c);
        }
        let acc2: u64 = if acc >= bound {
            bound
        } else {
            acc * 10 + (d as u64)
        };
        proof {
            let dv = digits_val(part);
            let dv2 = digits_val(part2);
            assert(hex_val(c) == d as int);
            if acc >= bound {
                assert(dv >= 0x1_0000_0000);
                assert(dv2 >= dv);
                assert(acc2 >= 0x1_0000_0000);
            } else {
                assert(dv == acc as int);
                assert(dv2 == acc as int * 10 + d as int);
                assert(acc2 as int == dv2);
            }
        }
        acc = acc2;
        j = j + 1;
    }
    let ghost digits = s@.subrange(start as int, j as int);
    proof {
        let cur = s@.skip(j as int);
        assert(sp_digits(cur) == (Seq::<char>::empty(), cur)) by {
            if cur.len() > 0 {
                assert(cur[0] == s@[j as int]);
            }
        }
        assert(digits + Seq::<char>::empty() =~= digits);
        assert(sp_digits(body) == (digits, cur));
    }
    if j == start {
        return None;
    }
    let max_mag: u64 = if neg {
        0x8000_0000
    } else {
        0x7fff_ffff
    };
    if acc > max_mag {
        proof {
            lemma_digits_val_nonneg(digits);
            let dv = digits_val(digits);
            assert(dv > max_mag);
        }
        return None;
    }
    proof {
        lemma_digits_val_nonneg(digits);
        let dv = digits_val(digits);
        assert(dv < 0x1_0000_0000);
        assert(acc == dv);
    }
    let v: i32 = if neg {
        (-(acc as i64)) as i32
    } else {
        acc as i32
    };
    Some((v, j))
}

// ------------------------- page responses -------------------------

/// The encoding of one page of the paginated transaction listing: its
/// items and its next-page link.
pub open spec fn enc_page(d: DataStructV) -> Seq<char> {
    "{\"data\":"@ + enc_transactions(d.data) + ",\"links\":{\"next\":"@ + enc_opt_str(d.links.next)
        + "}}"@
}

/// Parses one page of the paginated transaction listing.
pub open spec fn sp_page(s: Seq<char>) -> Option<(DataStructV, Seq<char>)> {
    match sp_lit(s, "{\"data\":"@) {
        None => None,
        Some(s1) => match sp_transactions(s1) {
            None => None,
            Some((vs, s2)) => match sp_lit(s2, ",\"links\":{\"next\":"@) {
                None => None,
                Some(s3) => match sp_opt_string(s3) {
                    None => None,
                    Some((nx, s4)) => match sp_lit(s4, "}}"@) {
                        None => None,
                        Some(s5) => Some(
                            (DataStructV { data: vs, links: LinksV { next: nx } }, s5),
                        ),
                    },
                },
            },
        },
    }
}

/// What loading a whole page body yields, provided nothing follows the
/// page object.
pub open spec fn spec_loaded_page(s: Seq<char>) -> Option<DataStructV> {
    match sp_page(s) {
        Some((v, r)) => if r.len() == 0 {
            Some(v)
        } else {
            None
        },
        None => None,
    }
}

proof fn lemma_sp_page_enc(d: DataStructV, rest: Seq<char>)
    ensures
        sp_page(enc_page(d) + rest) == Some((d, rest)),
{
    let x1 = "{\"data\":"@;
    let x2 = enc_transactions(d.data);
    let x3 = ",\"links\":{\"next\":"@;
    let x4 = enc_opt_str(d.links.next);
    let x5 = "}}"@;
    let l2 = x1 + x2;
    let l3 = l2 + x3;
    let l4 = l3 + x4;
    let t5 = x5 + rest;
    let t4 = x4 + t5;
    let t3 = x3 + t4;
    let t2 = x2 + t3;
    assert(enc_page(d) == l4 + x5);
    lemma_assoc(l4, x5, rest);
    lemma_assoc(l3, x4, t5);
    lemma_assoc(l2, x3, t4);
    lemma_assoc(x1, x2, t3);
    assert(enc_page(d) + rest == x1 + t2);
    lemma_sp_lit_enc(x1, t2);
    lemma_sp_transactions_enc(d.data, t3);
    lemma_sp_lit_enc(x3, t4);
    lemma_sp_opt_string_enc(d.links.next, t5);
    lemma_sp_lit_enc(x5, rest);
}

/// Loading an encoded page yields the encoded page back, items, link and
/// all: the page round trip loses nothing.
pub proof fn lemma_page_roundtrip(d: DataStructV)
    ensures
        spec_loaded_page(enc_page(d)) == Some(d),
{
    lemma_sp_page_enc(d, Seq::empty());
    assert(enc_page(d) + Seq::<char>::empty() =~= enc_page(d));
}

// ------------------------- balances and accounts -------------------------

/// The encoding of a balance object.
pub open spec fn enc_balance(b: BalanceV) -> Seq<char> {
    "{\"currencyCode\":"@ + enc_string(b.currency_code) + ",\"value\":"@ + enc_string(b.value)
        + ",\"valueInBaseUnits\":"@ + enc_i32(b.value_in_base_units as int) + "}"@
}

/// Parses a balance object.
#[verifier::opaque]
pub open spec fn sp_balance(s: Seq<char>) -> Option<(BalanceV, Seq<char>)> {
    match sp_lit(s, "{\"currencyCode\":"@) {
        None => None,
        Some(s1) => match sp_string(s1) {
            None => None,
            Some((cc, s2)) => match sp_lit(s2, ",\"value\":"@) {
                None => None,
                Some(s3) => match sp_string(s3) {
                    None => None,
                    Some((v, s4)) => match sp_lit(s4, ",\"valueInBaseUnits\":"@) {
                        None => None,
                        Some(s5) => match sp_i32(s5) {
                            None => None,
                            Some((n, s6)) => match sp_lit(s6, "}"@) {
                                None => None,
                                Some(s7) => Some(
                                    (
                                        BalanceV {
                                            currency_code: cc,
                                            value: v,
                                            value_in_base_units: n,
                                        },
                                        s7,
                                    ),
                                ),
                            },
                        },
                    },
                },
            },
        },
    }
}

proof fn lemma_sp_balance_enc(b: BalanceV, rest: Seq<char>)
    ensures
        sp_balance(enc_balance(b) + rest) == Some((b, rest)),
{
    reveal(sp_balance);
    reveal_strlit("}");
    let x1 = "{\"currencyCode\":"@;
    let x2 = enc_string(b.currency_code);
    let x3 = ",\"value\":"@;
    let x4 = enc_string(b.value);
    let x5 = ",\"valueInBaseUnits\":"@;
    let x6 = enc_i32(b.value_in_base_units as int);
    let x7 = "}"@;
    let l2 = x1 + x2;
    let l3 = l2 + x3;
    let l4 = l3 + x4;
    let l5 = l4 + x5;
    let l6 = l5 + x6;
    let t7 = x7 + rest;
    let t6 = x6 + t7;
    let t5 = x5 + t6;
    let t4 = x4 + t5;
    let t3 = x3 + t4;
    let t2 = x2 + t3;
    assert(enc_balance(b) == l6 + x7);
    lemma_assoc(l6, x7, rest);
    lemma_assoc(l5, x6, t7);
    lemma_assoc(l4, x5, t6);
    lemma_assoc(l3, x4, t5);
    lemma_assoc(l2, x3, t4);
    lemma_assoc(x1, x2, t3);
    assert(enc_balance(b) + rest == x1 + t2);
    lemma_sp_lit_enc(x1, t2);
    lemma_sp_string_enc(b.currency_code, t3);
    lemma_sp_lit_enc(x3, t4);
    lemma_sp_string_enc(b.value, t5);
    lemma_sp_lit_enc(x5, t6);
    assert(t7[0] == '}');
    assert(!is_digit('}'));
    lemma_sp_i32_enc(b.value_in_base_units as int, t7);
    lemma_sp_lit_enc(x7, rest);
}

/// The encoding of an account's attributes.
pub open spec fn enc_acct_attrs(a: AccountAttributesV) -> Seq<char> {
    "{\"displayName\":"@ + enc_string(a.display_name) + ",\"accountType\":"@ + enc_string(
        a.account_type,
    ) + ",\"ownershipType\":"@ + enc_string(a.ownership_type) + ",\"balance\":"@ + enc_balance(
        a.balance,
    ) + ",\"createdAt\":"@ + enc_string(a.created_at) + "}"@
}

/// Parses an account's attributes.
#[verifier::opaque]
pub open spec fn sp_acct_attrs(s: Seq<char>) -> Option<(AccountAttributesV, Seq<char>)> {
    match sp_lit(s, "{\"displayName\":"@) {
        None => None,
        Some(s1) => match sp_string(s1) {
            None => None,
            Some((dn, s2)) => match sp_lit(s2, ",\"accountType\":"@) {
                None => None,
                Some(s3) => match sp_string(s3) {
                    None => None,
                    Some((at, s4)) => match sp_lit(s4, ",\"ownershipType\":"@) {
                        None => None,
                        Some(s5) => match sp_string(s5) {
                            None => None,
                            Some((ot, s6)) => match sp_lit(s6, ",\"balance\":"@) {
                                None => None,
                                Some(s7) => match sp_balance(s7) {
                                    None => None,
                                    Some((b, s8)) => match sp_lit(s8, ",\"createdAt\":"@) {
                                        None => None,
                                        Some(s9) => match sp_string(s9) {
                                            None => None,
                                            Some((ca, s10)) => match sp_lit(s10, "}"@) {
                                                None => None,
                                                Some(s11) => Some(
                                                    (
                                                        AccountAttributesV {
                                                            display_name: dn,
                                                            account_type: at,
                                                            ownership_type: ot,
                                                            balance: b,
                                                            created_at: ca,
                                                        },
                                                        s11,
                                                    ),
                                                ),
                                            },
                                        },
                                    },
                                },
                            },
                        },
                    },
                },
            },
        },
    }
}

proof fn lemma_sp_acct_attrs_enc(a: AccountAttributesV, rest: Seq<char>)
    ensures
        sp_acct_attrs(enc_acct_attrs(a) + rest) == Some((a, rest)),
{
    reveal(sp_acct_attrs);
    let x1 = "{\"displayName\":"@;
    let x2 = enc_string(a.display_name);
    let x3 = ",\"accountType\":"@;
    let x4 = enc_string(a.account_type);
    let x5 = ",\"ownershipType\":"@;
    let x6 = enc_string(a.ownership_type);
    let x7 = ",\"balance\":"@;
    let x8 = enc_balance(a.balance);
    let x9 = ",\"createdAt\":"@;
    let x10 = enc_string(a.created_at);
    let x11 = "}"@;
    let l2 = x1 + x2;
    let l3 = l2 + x3;
    let l4 = l3 + x4;
    let l5 = l4 + x5;
    let l6 = l5 + x6;
    let l7 = l6 + x7;
    let l8 = l7 + x8;
    let l9 = l8 + x9;
    let l10 = l9 + x10;
    let t11 = x11 + rest;
    let t10 = x10 + t11;
    let t9 = x9 + t10;
    let t8 = x8 + t9;
    let t7 = x7 + t8;
    let t6 = x6 + t7;
    let t5 = x5 + t6;
    let t4 = x4 + t5;
    let t3 = x3 + t4;
    let t2 = x2 + t3;
    assert(enc_acct_attrs(a) == l10 + x11);
    lemma_assoc(l10, x11, rest);
    lemma_assoc(l9, x10, t11);
    lemma_assoc(l8, x9, t10);
    lemma_assoc(l7, x8, t9);
    lemma_assoc(l6, x7, t8);
    lemma_assoc(l5, x6, t7);
    lemma_assoc(l4, x5, t6);
    lemma_assoc(l3, x4, t5);
    lemma_assoc(l2, x3, t4);
    lemma_assoc(x1, x2, t3);
    assert(enc_acct_attrs(a) + rest == x1 + t2);
    lemma_sp_lit_enc(x1, t2);
    lemma_sp_string_enc(a.display_name, t3);
    lemma_sp_lit_enc(x3, t4);
    lemma_sp_string_enc(a.account_type, t5);
    lemma_sp_lit_enc(x5, t6);
    lemma_sp_string_enc(a.ownership_type, t7);
    lemma_sp_lit_enc(x7, t8);
    lemma_sp_balance_enc(a.balance, t9);
    lemma_sp_lit_enc(x9, t10);
    lemma_sp_string_enc(a.created_at, t11);
    lemma_sp_lit_enc(x11, rest);
}

/// The encoding of one account.
pub open spec fn enc_account(a: AccountV) -> Seq<char> {
    "{\"id\":"@ + enc_string(a.account_id) + ",\"attributes\":"@ + enc_acct_attrs(a.attributes)
        + "}"@
}

/// Parses one account.
pub open spec fn sp_account(s: Seq<char>) -> Option<(AccountV, Seq<char>)> {
    match sp_lit(s, "{\"id\":"@) {
        None => None,
        Some(s1) => match sp_string(s1) {
            None => None,
            Some((id, s2)) => match sp_lit(s2, ",\"attributes\":"@) {
                None => None,
                Some(s3) => match sp_acct_attrs(s3) {
                    None => None,
                    Some((at, s4)) => match sp_lit(s4, "}"@) {
                        None => None,
                        Some(s5) => Some((AccountV { account_id: id, attributes: at }, s5)),
                    },
                },
            },
        },
    }
}

proof fn lemma_sp_account_enc(a: AccountV, rest: Seq<char>)
    ensures
        sp_account(enc_account(a) + rest) == Some((a, rest)),
{
    let x1 = "{\"id\":"@;
    let x2 = enc_string(a.account_id);
    let x3 = ",\"attributes\":"@;
    let x4 = enc_acct_attrs(a.attributes);
    let x5 = "}"@;
    let l2 = x1 + x2;
    let l3 = l2 + x3;
    let l4 = l3 + x4;
    let t5 = x5 + rest;
    let t4 = x4 + t5;
    let t3 = x3 + t4;
    let t2 = x2 + t3;
    assert(enc_account(a) == l4 + x5);
    lemma_assoc(l4, x5, rest);
    lemma_assoc(l3, x4, t5);
    lemma_assoc(l2, x3, t4);
    lemma_assoc(x1, x2, t3);
    assert(enc_account(a) + rest == x1 + t2);
    lemma_sp_lit_enc(x1, t2);
    lemma_sp_string_enc(a.account_id, t3);
    lemma_sp_lit_enc(x3, t4);
    lemma_sp_acct_attrs_enc(a.attributes, t5);
    lemma_sp_lit_enc(x5, rest);
}

// ------------------------- the account array and response -------------------------

/// The encodings of the accounts past the first, each preceded by a comma.
pub open spec fn enc_accounts_sep(items: Seq<AccountV>) -> Seq<char>
    decreases items.len(),
{
    if items.len() == 0 {
        Seq::empty()
    } else {
        ","@ + enc_account(items[0]) + enc_accounts_sep(items.skip(1))
    }
}

/// The encoding of an account array.
pub open spec fn enc_accounts(items: Seq<AccountV>) -> Seq<char> {
    if items.len() == 0 {
        "[]"@
    } else {
        "["@ + enc_account(items[0]) + enc_accounts_sep(items.skip(1)) + "]"@
    }
}

/// Parses the accounts of a non-empty array, closing bracket included.
pub open spec fn sp_account_items(s: Seq<char>) -> Option<(Seq<AccountV>, Seq<char>)>
    decreases s.len(),
{
    match sp_account(s) {
        None => None,
        Some((v, r)) => if r.len() >= 1 && r[0] == ',' {
            if r.len() <= s.len() {
                match sp_account_items(r.skip(1)) {
                    Some((vs, r2)) => Some((seq![v] + vs, r2)),
                    None => None,
                }
            } else {
                None
            }
        } else if r.len() >= 1 && r[0] == ']' {
            Some((seq![v], r.skip(1)))
        } else {
            None
        },
    }
}

/// Parses an account array.
pub open spec fn sp_accounts(s: Seq<char>) -> Option<(Seq<AccountV>, Seq<char>)> {
    if s.len() >= 2 && s[0] == '[' && s[1] == ']' {
        Some((Seq::empty(), s.skip(2)))
    } else if s.len() >= 1 && s[0] == '[' {
        sp_account_items(s.skip(1))
    } else {
        None
    }
}

/// The encoding of a whole account-listing response.
pub open spec fn enc_api_response(v: ApiResponseV) -> Seq<char> {
    "{\"data\":"@ + enc_accounts(v.data) + "}"@
}

/// Parses a whole account-listing response.
pub open spec fn sp_api_response(s: Seq<char>) -> Option<(ApiResponseV, Seq<char>)> {
    match sp_lit(s, "{\"data\":"@) {
        None => None,
        Some(s1) => match sp_accounts(s1) {
            None => None,
            Some((vs, s2)) => match sp_lit(s2, "}"@) {
                None => None,
                Some(s3) => Some((ApiResponseV { data: vs }, s3)),
            },
        },
    }
}

/// What loading a whole account snapshot text yields, provided nothing
/// follows the response object.
pub open spec fn spec_loaded_accounts(s: Seq<char>) -> Option<ApiResponseV> {
    match sp_api_response(s) {
        Some((v, r)) => if r.len() == 0 {
            Some(v)
        } else {
            None
        },
        None => None,
    }
}

#[verifier::rlimit(100)]
proof fn lemma_sp_account_items_enc(items: Seq<AccountV>, rest: Seq<char>)
    requires
        items.len() >= 1,
    ensures
        sp_account_items(enc_account(items[0]) + (enc_accounts_sep(items.skip(1)) + ("]"@ + rest)))
            == Some((items, rest)),
    decreases items.len(),
{
    reveal_strlit("]");
    reveal_strlit(",");
    let tail = enc_accounts_sep(items.skip(1)) + ("]"@ + rest);
    let s = enc_account(items[0]) + tail;
    lemma_sp_account_enc(items[0], tail);
    if items.len() == 1 {
        assert(enc_accounts_sep(items.skip(1)) =~= Seq::<char>::empty());
        assert(tail =~= "]"@ + rest);
        assert(tail[0] == ']');
        assert(tail.skip(1) =~= rest);
        assert(seq![items[0]] =~= items);
    } else {
        let more = items.skip(1);
        let t0 = enc_account(more[0]);
        let s0 = enc_accounts_sep(more.skip(1));
        let e = "]"@ + rest;
        assert(enc_accounts_sep(more) == (","@ + t0) + s0);
        lemma_assoc(","@ + t0, s0, e);
        lemma_assoc(","@, t0, s0 + e);
        assert(tail == ","@ + (t0 + (s0 + e)));
        assert(tail[0] == ',');
        assert(tail.len() <= s.len());
        assert(tail.skip(1) =~= t0 + (s0 + e));
        lemma_sp_account_items_enc(more, rest);
        assert(seq![items[0]] + more =~= items);
    }
}

proof fn lemma_sp_accounts_enc(items: Seq<AccountV>, rest: Seq<char>)
    ensures
        sp_accounts(enc_accounts(items) + rest) == Some((items, rest)),
{
    let s = enc_accounts(items) + rest;
    if items.len() == 0 {
        reveal_strlit("[]");
        assert(s[0] == '[' && s[1] == ']');
        assert(s.skip(2) =~= rest);
    } else {
        reveal_strlit("[");
        reveal_strlit("]");
        reveal_strlit("{\"id\":");
        assert(s[0] == '[');
        assert(enc_account(items[0])[0] == '{');
        assert(s[1] == '{');
        assert(s.skip(1) =~= enc_account(items[0]) + (enc_accounts_sep(items.skip(1)) + ("]"@
            + rest)));
        lemma_sp_account_items_enc(items, rest);
    }
}

proof fn lemma_sp_api_response_enc(v: ApiResponseV, rest: Seq<char>)
    ensures
        sp_api_response(enc_api_response(v) + rest) == Some((v, rest)),
{
    let x1 = "{\"data\":"@;
    let x2 = enc_accounts(v.data);
    let x3 = "}"@;
    let l2 = x1 + x2;
    let t3 = x3 + rest;
    let t2 = x2 + t3;
    assert(enc_api_response(v) == l2 + x3);
    lemma_assoc(l2, x3, rest);
    lemma_assoc(x1, x2, t3);
    assert(enc_api_response(v) + rest == x1 + t2);
    lemma_sp_lit_enc(x1, t2);
    lemma_sp_accounts_enc(v.data, t3);
    lemma_sp_lit_enc(x3, rest);
}

/// Loading an encoded account snapshot yields the encoded response back,
/// field for field: the account round trip loses nothing.
pub proof fn lemma_accounts_roundtrip(v: ApiResponseV)
    ensures
        spec_loaded_accounts(enc_api_response(v)) == Some(v),
{
    lemma_sp_api_response_enc(v, Seq::empty());
    assert(enc_api_response(v) + Seq::<char>::empty() =~= enc_api_response(v));
}

// ------------------------- exec accounts encoding -------------------------

/// Appends the encoding of a balance object to the output.
fn push_balance(buf: &mut Vec<char>, b: &Balance)
    ensures
        final(buf)@ == old(buf)@ + enc_balance(b.deep_view()),
{
    push_str_chars(buf, "{\"currencyCode\":");
    push_json_string(buf, b.currency_code.as_str());
    push_str_chars(buf, ",\"value\":");
    push_json_string(buf, b.value.as_str());
    push_str_chars(buf, ",\"valueInBaseUnits\":");
    push_i32(buf, b.value_in_base_units);
    push_str_chars(buf, "}");
    proof {
        assert(buf@ =~= old(buf)@ + enc_balance(b.deep_view()));
    }
}

/// Appends the encoding of an account's attributes to the output.
#[verifier::rlimit(100)]
fn push_acct_attrs(buf: &mut Vec<char>, a: &AccountAttributes)
    ensures
        final(buf)@ == old(buf)@ + enc_acct_attrs(a.deep_view()),
{
    push_str_chars(buf, "{\"displayName\":");
    push_json_string(buf, a.display_name.as_str());
    push_str_chars(buf, ",\"accountType\":");
    push_json_string(buf, a.account_type.as_str());
    push_str_chars(buf, ",\"ownershipType\":");
    push_json_string(buf, a.ownership_type.as_str());
    push_str_chars(buf, ",\"balance\":");
    push_balance(buf, &a.balance);
    push_str_chars(buf, ",\"createdAt\":");
    push_json_string(buf, a.created_at.as_str());
    push_str_chars(buf, "}");
    proof {
        assert(buf@ =~= old(buf)@ + enc_acct_attrs(a.deep_view()));
    }
}

/// Appends the encoding of one account to the output.
fn push_account(buf: &mut Vec<char>, a: &Account)
    ensures
        final(buf)@ == old(buf)@ + enc_account(a.deep_view()),
{
    push_str_chars(buf, "{\"id\":");
    push_json_string(buf, a.account_id.as_str());
    push_str_chars(buf, ",\"attributes\":");
    push_acct_attrs(buf, &a.attributes);
    push_str_chars(buf, "}");
    proof {
        assert(buf@ =~= old(buf)@ + enc_account(a.deep_view()));
    }
}

proof fn lemma_enc_accounts_sep_snoc(a: Seq<AccountV>, x: AccountV)
    ensures
        enc_accounts_sep(a.push(x)) == enc_accounts_sep(a) + (","@ + enc_account(x)),
    decreases a.len(),
{
    if a.len() == 0 {
        assert(a.push(x)[0] == x);
        assert(a.push(x).skip(1) =~= Seq::<AccountV>::empty());
        assert(enc_accounts_sep(a.push(x)) == ","@ + enc_account(x) + enc_accounts_sep(
            a.push(x).skip(1),
        ));
        assert(","@ + enc_account(x) + Seq::<char>::empty() =~= ","@ + enc_account(x));
        assert(enc_accounts_sep(a) =~= Seq::<char>::empty());
        assert(Seq::<char>::empty() + (","@ + enc_account(x)) =~= ","@ + enc_account(x));
    } else {
        lemma_enc_accounts_sep_snoc(a.skip(1), x);
        assert(a.push(x)[0] == a[0]);
        assert(a.push(x).skip(1) =~= a.skip(1).push(x));
        assert(","@ + enc_account(a[0]) + (enc_accounts_sep(a.skip(1)) + (","@ + enc_account(x)))
            =~= (","@ + enc_account(a[0]) + enc_accounts_sep(a.skip(1))) + (","@ + enc_account(x)));
    }
}

/// Encodes an account-listing response as its canonical JSON text.
#[verifier::rlimit(100)]
pub fn encode_api_response(resp: &ApiResponse) -> (r: String)
    ensures
        r@ == enc_api_response(resp.deep_view()),
{
    let ghost items = resp.data.deep_view();
    let mut buf: Vec<char> = Vec::new();
    push_str_chars(&mut buf, "{\"data\":");
    if resp.data.len() == 0 {
        push_str_chars(&mut buf, "[]");
        push_str_chars(&mut buf, "}");
        proof {
            assert(items.len() == 0);
            assert(buf@ =~= enc_api_response(resp.deep_view()));
        }
        return chars_to_string(buf);
    }
    push_str_chars(&mut buf, "[");
    push_account(&mut buf, &resp.data[0]);
    proof {
        assert(items[0] == resp.data@[0].deep_view());
        assert(items.take(1).skip(1) =~= Seq::<AccountV>::empty());
        assert(buf@ =~= "{\"data\":"@ + ("["@ + enc_account(items[0]) + enc_accounts_sep(
            items.take(1).skip(1),
        )));
    }
    let n = resp.data.len();
    let mut k: usize = 1;
    while k < n
        invariant
            1 <= k <= n,
            n == resp.data@.len(),
            items == resp.data.deep_view(),
            items.len() == n,
            buf@ == "{\"data\":"@ + ("["@ + enc_account(items[0]) + enc_accounts_sep(
                items.take(k as int).skip(1),
            )),
        decreases n - k,
    {
        let ghost part = items.take(k as int).skip(1);
        push_str_chars(&mut buf, ",");
        push_account(&mut buf, &resp.data[k]);
        proof {
            assert(items[k as int] == resp.data@[k as int].deep_view());
            assert(items.take(k as int + 1).skip(1) =~= part.push(items[k as int]));
            lemma_enc_accounts_sep_snoc(part, items[k as int]);
            assert(("{\"data\":"@ + ("["@ + enc_account(items[0]) + enc_accounts_sep(part))) + ","@
                + enc_account(items[k as int]) =~= "{\"data\":"@ + ("["@ + enc_account(items[0])
                + (enc_accounts_sep(part) + (","@ + enc_account(items[k as int])))));
        }
        k = k + 1;
    }
    push_str_chars(&mut buf, "]");
    push_str_chars(&mut buf, "}");
    proof {
        assert(items.take(n as int) =~= items);
        assert(buf@ =~= enc_api_response(resp.deep_view()));
    }
    chars_to_string(buf)
}

// ------------------------- exec accounts parsing -------------------------

/// Parses a balance object starting at `i`.
fn parse_balance(s: &Vec<char>, i: usize) -> (r: Option<(Balance, usize)>)
    requires
        i <= s@.len(),
    ensures
        match r {
            Some((v, j)) => i < j <= s@.len() && sp_balance(s@.skip(i as int)) == Some(
                (v.deep_view(), s@.skip(j as int)),
            ),
            None => sp_balance(s@.skip(i as int)) is None,
        },
{
    proof {
        reveal(sp_balance);
        reveal_strlit("{\"currencyCode\":");
    }
    let j1 = match expect_lit(s, i, "{\"currencyCode\":") {
        Some(j) => j,
        None => {
            return None;
        },
    };
    let (cc, j2) = match parse_json_string(s, j1) {
        Some(p) => p,
        None => {
            return None;
        },
    };
    let j3 = match expect_lit(s, j2, ",\"value\":") {
        Some(j) => j,
        None => {
            return None;
        },
    };
    let (v, j4) = match parse_json_string(s, j3) {
        Some(p) => p,
        None => {
            return None;
        },
    };
    let j5 = match expect_lit(s, j4, ",\"valueInBaseUnits\":") {
        Some(j) => j,
        None => {
            return None;
        },
    };
    let (n, j6) = match parse_i32(s, j5) {
        Some(p) => p,
        None => {
            return None;
        },
    };
    let j7 = match expect_lit(s, j6, "}") {
        Some(j) => j,
        None => {
            return None;
        },
    };
    Some((Balance { currency_code: cc, value: v, value_in_base_units: n }, j7))
}

/// Parses an account's attributes starting at `i`.
#[verifier::rlimit(100)]
fn parse_acct_attrs(s: &Vec<char>, i: usize) -> (r: Option<(AccountAttributes, usize)>)
    requires
        i <= s@.len(),
    ensures
        match r {
            Some((v, j)) => i < j <= s@.len() && sp_acct_attrs(s@.skip(i as int)) == Some(
                (v.deep_view(), s@.skip(j as int)),
            ),
            None => sp_acct_attrs(s@.skip(i as int)) is None,
        },
{
    proof {
        reveal(sp_acct_attrs);
        reveal_strlit("{\"displayName\":");
    }
    let j1 = match expect_lit(s, i, "{\"displayName\":") {
        Some(j) => j,
        None => {
            return None;
        },
    };
    let (dn, j2) = match parse_json_string(s, j1) {
        Some(p) => p,
        None => {
            return None;
        },
    };
    let j3 = match expect_lit(s, j2, ",\"accountType\":") {
        Some(j) => j,
        None => {
            return None;
        },
    };
    let (at, j4) = match parse_json_string(s, j3) {
        Some(p) => p,
        None => {
            return None;
        },
    };
    let j5 = match expect_lit(s, j4, ",\"ownershipType\":") {
        Some(j) => j,
        None => {
            return None;
        },
    };
    let (ot, j6) = match parse_json_string(s, j5) {
        Some(p) => p,
        None => {
            return None;
        },
    };
    let j7 = match expect_lit(s, j6, ",\"balance\":") {
        Some(j) => j,
        None => {
            return None;
        },
    };
    let (b, j8) = match parse_balance(s, j7) {
        Some(p) => p,
        None => {
            return None;
        },
    };
    let j9 = match expect_lit(s, j8, ",\"createdAt\":") {
        Some(j) => j,
        None => {
            return None;
        },
    };
    let (ca, j10) = match parse_json_string(s, j9) {
        Some(p) => p,
        None => {
            return None;
        },
    };
    let j11 = match expect_lit(s, j10, "}") {
        Some(j) => j,
        None => {
            return None;
        },
    };
    Some(
        (
            AccountAttributes {
                display_name: dn,
                account_type: at,
                ownership_type: ot,
                balance: b,
                created_at: ca,
            },
            j11,
        ),
    )
}

/// Parses one account starting at `i`.
fn parse_account(s: &Vec<char>, i: usize) -> (r: Option<(Account, usize)>)
    requires
        i <= s@.len(),
    ensures
        match r {
            Some((v, j)) => i < j <= s@.len() && sp_account(s@.skip(i as int)) == Some(
                (v.deep_view(), s@.skip(j as int)),
            ),
            None => sp_account(s@.skip(i as int)) is None,
        },
{
    proof {
        reveal_strlit("{\"id\":");
    }
    let j1 = match expect_lit(s, i, "{\"id\":") {
        Some(j) => j,
        None => {
            return None;
        },
    };
    let (id, j2) = match parse_json_string(s, j1) {
        Some(p) => p,
        None => {
            return None;
        },
    };
    let j3 = match expect_lit(s, j2, ",\"attributes\":") {
        Some(j) => j,
        None => {
            return None;
        },
    };
    let (at, j4) = match parse_acct_attrs(s, j3) {
        Some(p) => p,
        None => {
            return None;
        },
    };
    let j5 = match expect_lit(s, j4, "}") {
        Some(j) => j,
        None => {
            return None;
        },
    };
    Some((Account { account_id: id, attributes: at }, j5))
}

/// Holds when parsing the remaining accounts `cur` and prepending `accv`
/// to them agrees with parsing all the accounts `orig`.
spec fn acct_items_rel(orig: Seq<char>, accv: Seq<AccountV>, cur: Seq<char>) -> bool {
    sp_account_items(orig) == match sp_account_items(cur) {
        Some((vs, r)) => Some::<(Seq<AccountV>, Seq<char>)>((accv + vs, r)),
        None => None::<(Seq<AccountV>, Seq<char>)>,
    }
}

proof fn lemma_acct_rel_comma(
    orig: Seq<char>,
    accv: Seq<AccountV>,
    cur: Seq<char>,
    av: AccountV,
    r: Seq<char>,
)
    requires
        acct_items_rel(orig, accv, cur),
        sp_account(cur) == Some((av, r)),
        r.len() >= 1,
        r[0] == ',',
        r.len() <= cur.len(),
    ensures
        acct_items_rel(orig, accv.push(av), r.skip(1)),
{
    if let Some((vs, r2)) = sp_account_items(r.skip(1)) {
        assert(sp_account_items(cur) == Some((seq![av] + vs, r2)));
        assert(accv + (seq![av] + vs) =~= accv.push(av) + vs);
    } else {
        assert(sp_account_items(cur) is None);
    }
}

proof fn lemma_acct_rel_close(
    orig: Seq<char>,
    accv: Seq<AccountV>,
    cur: Seq<char>,
    av: AccountV,
    r: Seq<char>,
)
    requires
        acct_items_rel(orig, accv, cur),
        sp_account(cur) == Some((av, r)),
        r.len() >= 1,
        r[0] == ']',
    ensures
        sp_account_items(orig) == Some((accv.push(av), r.skip(1))),
{
    assert(sp_account_items(cur) == Some((seq![av], r.skip(1))));
    assert(accv + seq![av] =~= accv.push(av));
}

proof fn lemma_acct_rel_stuck(
    orig: Seq<char>,
    accv: Seq<AccountV>,
    cur: Seq<char>,
    av: AccountV,
    r: Seq<char>,
)
    requires
        acct_items_rel(orig, accv, cur),
        sp_account(cur) == Some((av, r)),
        r.len() == 0 || (r[0] != ',' && r[0] != ']'),
    ensures
        sp_account_items(orig) is None,
{
    assert(sp_account_items(cur) is None);
}

proof fn lemma_acct_rel_fail(orig: Seq<char>, accv: Seq<AccountV>, cur: Seq<char>)
    requires
        acct_items_rel(orig, accv, cur),
        sp_account(cur) is None,
    ensures
        sp_account_items(orig) is None,
{
    assert(sp_account_items(cur) is None);
}

/// Loads an account snapshot from the canonical text that
/// `encode_api_response` writes: the whole response, or nothing when the
/// text is not a whole snapshot in that form.
#[verifier::rlimit(100)]
pub fn parse_api_response(text: &str) -> (r: Option<ApiResponse>)
    ensures
        match r {
            Some(v) => spec_loaded_accounts(text@) == Some(v.deep_view()),
            None => spec_loaded_accounts(text@) is None,
        },
{
    let s = str_to_chars(text);
    proof {
        reveal_strlit("{\"data\":");
    }
    let start = match expect_lit(&s, 0, "{\"data\":") {
        Some(j) => j,
        None => {
            proof {
                assert(s@.skip(0) =~= s@);
            }
            return None;
        },
    };
    proof {
        assert(s@.skip(0) =~= s@);
    }
    if start == s.len() || s[start] != '[' {
        proof {
            if start < s@.len() {
                assert(s@.skip(start as int)[0] == s@[start as int]);
            }
        }
        return None;
    }
    let ghost after = s@.skip(start as int);
    if start + 1 < s.len() && s[start + 1] == ']' {
        proof {
            assert(after[1] == s@[start as int + 1]);
        }
        let j = start + 2;
        match expect_lit(&s, j, "}") {
            Some(j2) => {
                proof {
                    assert(after.skip(2) =~= s@.skip(j as int));
                }
                if j2 == s.len() {
                    let resp = ApiResponse { data: Vec::new() };
                    proof {
                        assert(s@.skip(j2 as int).len() == 0);
                        assert(resp.deep_view().data =~= Seq::<AccountV>::empty());
                    }
                    return Some(resp);
                } else {
                    proof {
                        assert(s@.skip(j2 as int).len() != 0);
                    }
                    return None;
                }
            },
            None => {
                proof {
                    assert(after.skip(2) =~= s@.skip(start as int + 2));
                }
                return None;
            },
        }
    }
    proof {
        if start + 1 < s@.len() {
            assert(after[1] == s@[start as int + 1]);
        }
        assert(sp_accounts(after) == sp_account_items(after.skip(1)));
    }
    let ghost orig = s@.skip(start as int + 1);
    proof {
        assert(after.skip(1) =~= orig);
        if let Some((vs, r)) = sp_account_items(orig) {
            assert(Seq::<AccountV>::empty() + vs =~= vs);
        }
    }
    let mut acc: Vec<Account> = Vec::new();
    let mut j: usize = start + 1;
    proof {
        assert(acc.deep_view() =~= Seq::<AccountV>::empty());
    }
    loop
        invariant
            start + 1 <= j <= s@.len(),
            s@ == text@,
            start + 1 <= s@.len(),
            orig == s@.skip(start as int + 1),
            sp_lit(s@, "{\"data\":"@) == Some(s@.skip(start as int)),
            sp_accounts(s@.skip(start as int)) == sp_account_items(orig),
            acct_items_rel(orig, acc.deep_view(), s@.skip(j as int)),
        decreases s@.len() - j,
    {
        let ghost cur = s@.skip(j as int);
        let ghost accv = acc.deep_view();
        let (av, j2) = match parse_account(&s, j) {
            Some(p) => p,
            None => {
                proof {
                    lemma_acct_rel_fail(orig, accv, cur);
                }
                return None;
            },
        };
        let ghost avv = av.deep_view();
        let ghost r = s@.skip(j2 as int);
        if j2 < s.len() && s[j2] == ',' {
            proof {
                assert(r[0] == ',');
                lemma_acct_rel_comma(orig, accv, cur, avv, r);
                assert(r.skip(1) =~= s@.skip(j2 as int + 1));
            }
            acc.push(av);
            proof {
                assert(acc.deep_view() =~= accv.push(avv));
            }
            j = j2 + 1;
        } else if j2 < s.len() && s[j2] == ']' {
            proof {
                assert(r[0] == ']');
                lemma_acct_rel_close(orig, accv, cur, avv, r);
            }
            acc.push(av);
            proof {
                assert(acc.deep_view() =~= accv.push(avv));
                assert(r.skip(1) =~= s@.skip(j2 as int + 1));
            }
            match expect_lit(&s, j2 + 1, "}") {
                Some(j3) => {
                    if j3 == s.len() {
                        proof {
                            assert(s@.skip(j3 as int).len() == 0);
                        }
                        return Some(ApiResponse { data: acc });
                    } else {
                        proof {
                            assert(s@.skip(j3 as int).len() != 0);
                        }
                        return None;
                    }
                },
                None => {
                    return None;
                },
            }
        } else {
            proof {
                if r.len() >= 1 {
                    assert(r[0] == s@[j2 as int]);
                }
                lemma_acct_rel_stuck(orig, accv, cur, avv, r);
            }
            return None;
        }
    }
}

} // verus!
