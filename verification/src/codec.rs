use vstd::prelude::*;

use crate::encoding::push_char;
use crate::model::{File_, FileV, Payload, PayloadV};

verus! {

/// The JSON escape of one character: quote and backslash take a backslash,
/// everything else stands for itself.
pub open spec fn esc_char(c: char) -> Seq<char> {
    if c == '"' || c == '\\' {
        seq!['\\', c]
    } else {
        seq![c]
    }
}

/// The JSON escape of a whole string body.
pub open spec fn esc(s: Seq<char>) -> Seq<char>
    decreases s.len(),
{
    if s.len() == 0 {
        Seq::empty()
    } else {
        esc(s.drop_last()) + esc_char(s.last())
    }
}

/// A JSON string: the escaped body between quotes.
pub open spec fn quoted(s: Seq<char>) -> Seq<char> {
    seq!['"'] + esc(s) + seq!['"']
}

/// The decimal digit characters of a number, most significant first.
pub open spec fn dec_nat(n: nat) -> Seq<char>
    decreases n,
{
    if n < 10 {
        seq![digit_char(n)]
    } else {
        dec_nat(n / 10).push(digit_char(n % 10))
    }
}

/// The character of one decimal digit.
pub open spec fn digit_char(d: nat) -> char {
    if d == 0 {
        '0'
    } else if d == 1 {
        '1'
    } else if d == 2 {
        '2'
    } else if d == 3 {
        '3'
    } else if d == 4 {
        '4'
    } else if d == 5 {
        '5'
    } else if d == 6 {
        '6'
    } else if d == 7 {
        '7'
    } else if d == 8 {
        '8'
    } else {
        '9'
    }
}

/// The `"origin":` key.
pub open spec fn key_origin() -> Seq<char> {
    seq!['"', 'o', 'r', 'i', 'g', 'i', 'n', '"', ':']
}

/// The `"parent":` key.
pub open spec fn key_parent() -> Seq<char> {
    seq!['"', 'p', 'a', 'r', 'e', 'n', 't', '"', ':']
}

/// The `"url":` key.
pub open spec fn key_url() -> Seq<char> {
    seq!['"', 'u', 'r', 'l', '"', ':']
}

/// The `"name":` key.
pub open spec fn key_name() -> Seq<char> {
    seq!['"', 'n', 'a', 'm', 'e', '"', ':']
}

/// The `"size":` key.
pub open spec fn key_size() -> Seq<char> {
    seq!['"', 's', 'i', 'z', 'e', '"', ':']
}

/// The `,"files":[` opener of the optional inventory list.
pub open spec fn key_files() -> Seq<char> {
    seq![',', '"', 'f', 'i', 'l', 'e', 's', '"', ':', '[']
}

/// One descriptor on the wire: a JSON object whose optional fields are
/// absent (not present-but-empty) when the descriptor lacks them.
pub open spec fn file_json(f: FileV) -> Seq<char> {
    seq!['{'] + (match f.origin {
        Some(o) => key_origin() + quoted(o) + seq![','],
        None => Seq::empty(),
    }) + key_parent() + quoted(f.parent) + seq![','] + (match f.url {
        Some(u) => key_url() + quoted(u) + seq![','],
        None => Seq::empty(),
    }) + key_name() + quoted(f.name) + seq![','] + key_size() + dec_nat(f.size as nat) + seq!['}']
}

/// A whole inventory on the wire: the descriptors, comma-separated.
pub open spec fn files_json(fs: Seq<FileV>) -> Seq<char>
    decreases fs.len(),
{
    if fs.len() == 0 {
        Seq::empty()
    } else if fs.len() == 1 {
        file_json(fs[0])
    } else {
        files_json(fs.drop_last()) + seq![','] + file_json(fs.last())
    }
}

/// A payload on the wire: the origin id, and the inventory list exactly
/// when the payload carries one.
pub open spec fn payload_json(p: PayloadV) -> Seq<char> {
    seq!['{'] + key_origin() + quoted(p.origin) + (match p.files {
        Some(fs) => key_files() + files_json(fs) + seq![']'],
        None => Seq::empty(),
    }) + seq!['}']
}

/// `t` occurs in `s` at position `i`.
pub open spec fn chunk_at(s: Seq<char>, i: int, t: Seq<char>) -> bool {
    0 <= i && i + t.len() <= s.len() && s.subrange(i, i + t.len()) == t
}

/// Consumes the exact literal `t` at position `i`.
pub open spec fn parse_lit(s: Seq<char>, i: int, t: Seq<char>) -> Option<int> {
    if chunk_at(s, i, t) {
        Some(i + t.len())
    } else {
        None
    }
}

/// Consumes the body of a JSON string up to its closing quote, undoing the
/// escapes; `acc` carries what is already read.
pub open spec fn parse_str_body(s: Seq<char>, i: int, acc: Seq<char>) -> Option<(Seq<char>, int)>
    decreases s.len() - i,
{
    if i < 0 || i >= s.len() {
        None
    } else if s[i] == '"' {
        Some((acc, i + 1))
    } else if s[i] == '\\' {
        if i + 1 < s.len() {
            parse_str_body(s, i + 2, acc.push(s[i + 1]))
        } else {
            None
        }
    } else {
        parse_str_body(s, i + 1, acc.push(s[i]))
    }
}

/// Consumes a whole JSON string, quotes included.
pub open spec fn parse_qstring(s: Seq<char>, i: int) -> Option<(Seq<char>, int)> {
    if 0 <= i < s.len() && s[i] == '"' {
        parse_str_body(s, i + 1, Seq::empty())
    } else {
        None
    }
}

/// A decimal digit character.
pub open spec fn is_digit(c: char) -> bool {
    (c as u32) >= 48 && (c as u32) <= 57
}

/// The value of a decimal digit character.
pub open spec fn digit_val(c: char) -> nat {
    ((c as u32) - 48) as nat
}

/// Consumes a run of decimal digits, accumulating their value; stops at the
/// first non-digit.
pub open spec fn parse_digits(s: Seq<char>, i: int, acc: nat) -> (nat, int)
    decreases s.len() - i,
{
    if 0 <= i < s.len() && is_digit(s[i]) {
        parse_digits(s, i + 1, acc * 10 + digit_val(s[i]))
    } else {
        (acc, i)
    }
}

/// Consumes a non-empty digit run as a size; a value beyond the 64-bit
/// range is refused.
pub open spec fn parse_u64(s: Seq<char>, i: int) -> Option<(u64, int)> {
    if 0 <= i < s.len() && is_digit(s[i]) {
        let r = parse_digits(s, i, 0);
        if r.0 <= u64::MAX {
            Some((r.0 as u64, r.1))
        } else {
            None
        }
    } else {
        None
    }
}

/// Consumes one descriptor object of the wire format.
pub open spec fn parse_file(s: Seq<char>, i: int) -> Option<(FileV, int)> {
    match parse_lit(s, i, seq!['{']) {
        None => None,
        Some(i1) => {
            let ori = match parse_lit(s, i1, key_origin()) {
                Some(ia) => match parse_qstring(s, ia) {
                    Some((o, ib)) => match parse_lit(s, ib, seq![',']) {
                        Some(ic) => (Some(o), ic),
                        None => (None, -1),
                    },
                    None => (None, -1),
                },
                None => (None, i1),
            };
            if ori.1 < 0 {
                None
            } else {
                match parse_lit(s, ori.1, key_parent()) {
                    None => None,
                    Some(i3) => match parse_qstring(s, i3) {
                        None => None,
                        Some((parent, i4)) => match parse_lit(s, i4, seq![',']) {
                            None => None,
                            Some(i5) => {
                                let ur = match parse_lit(s, i5, key_url()) {
                                    Some(ia) => match parse_qstring(s, ia) {
                                        Some((u, ib)) => match parse_lit(s, ib, seq![',']) {
                                            Some(ic) => (Some(u), ic),
                                            None => (None, -1),
                                        },
                                        None => (None, -1),
                                    },
                                    None => (None, i5),
                                };
                                if ur.1 < 0 {
                                    None
                                } else {
                                    match parse_lit(s, ur.1, key_name()) {
                                        None => None,
                                        Some(i7) => match parse_qstring(s, i7) {
                                            None => None,
                                            Some((name, i8)) => match parse_lit(s, i8, seq![',']) {
                                                None => None,
                                                Some(i9) => match parse_lit(s, i9, key_size()) {
                                                    None => None,
                                                    Some(i10) => match parse_u64(s, i10) {
                                                        None => None,
                                                        Some((size, i11)) => match parse_lit(
                                                            s,
                                                            i11,
                                                            seq!['}'],
                                                        ) {
                                                            None => None,
                                                            Some(i12) => Some(
                                                                (
                                                                    FileV {
                                                                        origin: ori.0,
                                                                        parent: parent,
                                                                        url: ur.0,
                                                                        name: name,
                                                                        size: size,
                                                                    },
                                                                    i12,
                                                                ),
                                                            ),
                                                        },
                                                    },
                                                },
                                            },
                                        },
                                    }
                                }
                            },
                        },
                    },
                }
            }
        },
    }
}

/// Consumes the remainder of a descriptor list after its first element,
/// then the closing bracket. The fuel only bounds the recursion; any list
/// the input holds is shorter than the input itself.
pub open spec fn parse_files_rest(
    s: Seq<char>,
    i: int,
    acc: Seq<FileV>,
    fuel: nat,
) -> Option<(Seq<FileV>, int)>
    decreases fuel,
{
    match parse_lit(s, i, seq![']']) {
        Some(j) => Some((acc, j)),
        None => {
            if fuel == 0 {
                None
            } else {
                match parse_lit(s, i, seq![',']) {
                    None => None,
                    Some(i1) => match parse_file(s, i1) {
                        None => None,
                        Some((f, i2)) => parse_files_rest(s, i2, acc.push(f), (fuel - 1) as nat),
                    },
                }
            }
        },
    }
}

/// Consumes a whole descriptor list, closing bracket included.
pub open spec fn parse_files(s: Seq<char>, i: int, fuel: nat) -> Option<(Seq<FileV>, int)> {
    match parse_lit(s, i, seq![']']) {
        Some(j) => Some((Seq::empty(), j)),
        None => match parse_file(s, i) {
            None => None,
            Some((f, i1)) => parse_files_rest(s, i1, seq![f], fuel),
        },
    }
}

/// Consumes one payload object of the wire format.
pub open spec fn parse_payload(s: Seq<char>, i: int, fuel: nat) -> Option<(PayloadV, int)> {
    match parse_lit(s, i, seq!['{']) {
        None => None,
        Some(i1) => match parse_lit(s, i1, key_origin()) {
            None => None,
            Some(i2) => match parse_qstring(s, i2) {
                None => None,
                Some((origin, i3)) => match parse_lit(s, i3, seq!['}']) {
                    Some(i4) => Some((PayloadV { origin: origin, files: None }, i4)),
                    None => match parse_lit(s, i3, key_files()) {
                        None => None,
                        Some(i4) => match parse_files(s, i4, fuel) {
                            None => None,
                            Some((fs, i5)) => match parse_lit(s, i5, seq!['}']) {
                                None => None,
                                Some(i6) => Some(
                                    (PayloadV { origin: origin, files: Some(fs) }, i6),
                                ),
                            },
                        },
                    },
                },
            },
        },
    }
}

/// The whole wire decoding: one payload that fills the input exactly.
pub open spec fn spec_decode(s: Seq<char>) -> Option<PayloadV> {
    match parse_payload(s, 0, s.len()) {
        Some((p, j)) => {
            if j == s.len() {
                Some(p)
            } else {
                None
            }
        },
        None => None,
    }
}

/// Powers of ten.
pub open spec fn pow10(k: nat) -> nat
    decreases k,
{
    if k == 0 {
        1
    } else {
        10 * pow10((k - 1) as nat)
    }
}

/// One character of a chunk, read off the enclosing string.
proof fn lemma_chunk_index(s: Seq<char>, i: int, t: Seq<char>, k: int)
    requires
        chunk_at(s, i, t),
        0 <= k < t.len(),
    ensures
        s[i + k] == t[k],
{
    assert(s.subrange(i, i + t.len())[k] == t[k]);
}

/// A chunk made of two halves holds each half, in place.
proof fn lemma_chunk_split(s: Seq<char>, i: int, a: Seq<char>, b: Seq<char>)
    requires
        chunk_at(s, i, a + b),
    ensures
        chunk_at(s, i, a),
        chunk_at(s, i + a.len(), b),
{
    assert forall|k: int| 0 <= k < a.len() implies s.subrange(i, i + a.len())[k] == a[k] by {
        lemma_chunk_index(s, i, a + b, k);
        assert(s.subrange(i, i + a.len())[k] == s[i + k]);
    }
    assert(s.subrange(i, i + a.len()) =~= a);
    assert forall|k: int| 0 <= k < b.len() implies s.subrange(
        i + a.len(),
        i + a.len() + b.len(),
    )[k] == b[k] by {
        lemma_chunk_index(s, i, a + b, a.len() + k);
        assert(s.subrange(i + a.len(), i + a.len() + b.len())[k] == s[i + a.len() + k]);
    }
    assert(s.subrange(i + a.len(), i + a.len() + b.len()) =~= b);
}

/// The escape of a string, read from the front.
proof fn lemma_esc_first(x: Seq<char>)
    requires
        x.len() > 0,
    ensures
        esc(x) =~= esc_char(x[0]) + esc(x.drop_first()),
    decreases x.len(),
{
    if x.len() == 1 {
        assert(x.drop_last() =~= Seq::<char>::empty());
        assert(x.drop_first() =~= Seq::<char>::empty());
        assert(esc(x) =~= esc_char(x[0]) + esc(x.drop_first()));
    } else {
        lemma_esc_first(x.drop_last());
        assert(x.drop_last()[0] == x[0]);
        assert(x.drop_last().drop_first() =~= x.drop_first().drop_last());
        assert(x.drop_first().last() == x.last());
        assert(esc(x) =~= esc_char(x[0]) + esc(x.drop_first()));
    }
}

/// Reading an escaped body followed by a closing quote undoes the escape.
proof fn lemma_parse_body_esc(s: Seq<char>, i: int, x: Seq<char>, acc: Seq<char>)
    requires
        chunk_at(s, i, esc(x) + seq!['"']),
    ensures
        parse_str_body(s, i, acc) == Some((acc + x, i + esc(x).len() + 1)),
    decreases x.len(),
{
    let t = esc(x) + seq!['"'];
    if x.len() == 0 {
        assert(esc(x) =~= Seq::<char>::empty());
        lemma_chunk_index(s, i, t, 0);
        assert(s[i] == '"');
        assert(acc + x =~= acc);
    } else {
        lemma_esc_first(x);
        let c = x[0];
        let rest = esc(x.drop_first()) + seq!['"'];
        assert(t =~= esc_char(c) + rest);
        assert(chunk_at(s, i, esc_char(c) + rest));
        lemma_chunk_split(s, i, esc_char(c), rest);
        if c == '"' || c == '\\' {
            lemma_chunk_index(s, i, esc_char(c), 0);
            lemma_chunk_index(s, i, esc_char(c), 1);
            assert(s[i] == '\\');
            assert(s[i + 1] == c);
            lemma_parse_body_esc(s, i + 2, x.drop_first(), acc.push(c));
            assert(acc.push(c) + x.drop_first() =~= acc + x);
        } else {
            lemma_chunk_index(s, i, esc_char(c), 0);
            assert(s[i] == c);
            lemma_parse_body_esc(s, i + 1, x.drop_first(), acc.push(c));
            assert(acc.push(c) + x.drop_first() =~= acc + x);
        }
    }
}

/// Reading a whole JSON string undoes the quoting.
proof fn lemma_parse_qstring_quoted(s: Seq<char>, i: int, x: Seq<char>)
    requires
        chunk_at(s, i, quoted(x)),
    ensures
        parse_qstring(s, i) == Some((x, i + quoted(x).len())),
{
    let rest = esc(x) + seq!['"'];
    assert(quoted(x) =~= seq!['"'] + rest);
    assert(chunk_at(s, i, seq!['"'] + rest));
    lemma_chunk_split(s, i, seq!['"'], rest);
    lemma_chunk_index(s, i, seq!['"'], 0);
    assert(s[i] == '"');
    lemma_parse_body_esc(s, i + 1, x, Seq::empty());
    assert(Seq::empty() + x =~= x);
}

/// The character of a digit is a digit character with that value.
proof fn lemma_digit_char(d: nat)
    requires
        d < 10,
    ensures
        is_digit(digit_char(d)),
        digit_val(digit_char(d)) == d,
{
}

/// Every character of a printed number is a digit.
proof fn lemma_dec_all_digits(n: nat)
    ensures
        forall|k: int| 0 <= k < dec_nat(n).len() ==> is_digit(#[trigger] dec_nat(n)[k]),
    decreases n,
{
    if n < 10 {
        lemma_digit_char(n);
        assert forall|k: int| 0 <= k < dec_nat(n).len() implies is_digit(
            #[trigger] dec_nat(n)[k],
        ) by {
            assert(dec_nat(n)[0] == digit_char(n));
        }
    } else {
        lemma_dec_all_digits(n / 10);
        lemma_digit_char(n % 10);
        assert forall|k: int| 0 <= k < dec_nat(n).len() implies is_digit(
            #[trigger] dec_nat(n)[k],
        ) by {
            if k < dec_nat(n / 10).len() {
                assert(dec_nat(n)[k] == dec_nat(n / 10)[k]);
            } else {
                assert(dec_nat(n)[k] == digit_char(n % 10));
            }
        }
    }
}

/// Reading the printed digits of a number accumulates exactly that number.
proof fn lemma_digits_dec(s: Seq<char>, i: int, n: nat, acc: nat)
    requires
        chunk_at(s, i, dec_nat(n)),
    ensures
        parse_digits(s, i, acc) == parse_digits(
            s,
            i + dec_nat(n).len(),
            acc * pow10(dec_nat(n).len()) + n,
        ),
    decreases n,
{
    if n < 10 {
        lemma_digit_char(n);
        lemma_chunk_index(s, i, dec_nat(n), 0);
        assert(dec_nat(n)[0] == digit_char(n));
        assert(is_digit(s[i]) && digit_val(s[i]) == n);
        assert(pow10(0) == 1);
        assert(pow10(1) == 10);
    } else {
        let d1 = dec_nat(n / 10);
        assert(dec_nat(n) =~= d1 + seq![digit_char(n % 10)]);
        assert(chunk_at(s, i, d1 + seq![digit_char(n % 10)]));
        lemma_chunk_split(s, i, d1, seq![digit_char(n % 10)]);
        lemma_digits_dec(s, i, n / 10, acc);
        lemma_digit_char(n % 10);
        lemma_chunk_index(s, i + d1.len(), seq![digit_char(n % 10)], 0);
        assert(is_digit(s[i + d1.len()]) && digit_val(s[i + d1.len()]) == n % 10);
        let a1 = acc * pow10(d1.len()) + n / 10;
        assert(parse_digits(s, i + d1.len(), a1) == parse_digits(
            s,
            i + d1.len() + 1,
            a1 * 10 + n % 10,
        ));
        assert(pow10(d1.len() + 1) == 10 * pow10(d1.len()));
        assert(a1 * 10 + n % 10 == acc * pow10(d1.len() + 1) + n) by (nonlinear_arith)
            requires
                a1 == acc * pow10(d1.len()) + n / 10,
                pow10(d1.len() + 1) == 10 * pow10(d1.len()),
        ;
        assert(dec_nat(n).len() == d1.len() + 1);
    }
}

/// Reading a printed 64-bit number, followed by anything but a digit,
/// gives the number back.
proof fn lemma_parse_u64_dec(s: Seq<char>, i: int, n: u64)
    requires
        chunk_at(s, i, dec_nat(n as nat)),
        i + dec_nat(n as nat).len() < s.len() ==> !is_digit(s[i + dec_nat(n as nat).len()]),
    ensures
        parse_u64(s, i) == Some((n, i + dec_nat(n as nat).len())),
{
    lemma_dec_all_digits(n as nat);
    lemma_chunk_index(s, i, dec_nat(n as nat), 0);
    assert(is_digit(s[i]));
    lemma_digits_dec(s, i, n as nat, 0);
    assert(0 * pow10(dec_nat(n as nat).len()) + n as nat == n as nat);
}

/// Reading an encoded descriptor gives the descriptor back, every field
/// preserved and absent optional fields still absent.
#[verifier::rlimit(100)]
proof fn lemma_parse_file_json(s: Seq<char>, i: int, f: FileV)
    requires
        chunk_at(s, i, file_json(f)),
    ensures
        parse_file(s, i) == Some((f, i + file_json(f).len())),
{
    let t0 = seq!['{'];
    let t1 = match f.origin {
        Some(o) => key_origin() + quoted(o) + seq![','],
        None => Seq::<char>::empty(),
    };
    let t2 = key_parent();
    let t3 = quoted(f.parent);
    let t4 = seq![','];
    let t5 = match f.url {
        Some(u) => key_url() + quoted(u) + seq![','],
        None => Seq::<char>::empty(),
    };
    let t6 = key_name();
    let t7 = quoted(f.name);
    let t8 = seq![','];
    let t9 = key_size();
    let t10 = dec_nat(f.size as nat);
    let t11 = seq!['}'];
    lemma_chunk_split(s, i, t0 + t1 + t2 + t3 + t4 + t5 + t6 + t7 + t8 + t9 + t10, t11);
    let p11 = i + (t0 + t1 + t2 + t3 + t4 + t5 + t6 + t7 + t8 + t9 + t10).len();
    lemma_chunk_split(s, i, t0 + t1 + t2 + t3 + t4 + t5 + t6 + t7 + t8 + t9, t10);
    let p10 = i + (t0 + t1 + t2 + t3 + t4 + t5 + t6 + t7 + t8 + t9).len();
    lemma_chunk_split(s, i, t0 + t1 + t2 + t3 + t4 + t5 + t6 + t7 + t8, t9);
    let p9 = i + (t0 + t1 + t2 + t3 + t4 + t5 + t6 + t7 + t8).len();
    lemma_chunk_split(s, i, t0 + t1 + t2 + t3 + t4 + t5 + t6 + t7, t8);
    let p8 = i + (t0 + t1 + t2 + t3 + t4 + t5 + t6 + t7).len();
    lemma_chunk_split(s, i, t0 + t1 + t2 + t3 + t4 + t5 + t6, t7);
    let p7 = i + (t0 + t1 + t2 + t3 + t4 + t5 + t6).len();
    lemma_chunk_split(s, i, t0 + t1 + t2 + t3 + t4 + t5, t6);
    let p6 = i + (t0 + t1 + t2 + t3 + t4 + t5).len();
    lemma_chunk_split(s, i, t0 + t1 + t2 + t3 + t4, t5);
    let p5 = i + (t0 + t1 + t2 + t3 + t4).len();
    lemma_chunk_split(s, i, t0 + t1 + t2 + t3, t4);
    let p4 = i + (t0 + t1 + t2 + t3).len();
    lemma_chunk_split(s, i, t0 + t1 + t2, t3);
    let p3 = i + (t0 + t1 + t2).len();
    lemma_chunk_split(s, i, t0 + t1, t2);
    let p2 = i + (t0 + t1).len();
    lemma_chunk_split(s, i, t0, t1);
    let p1 = i + 1;
    assert(parse_lit(s, i, seq!['{']) == Some(p1));
    let ori_end: int;
    match f.origin {
        Some(o) => {
            lemma_chunk_split(s, p1, key_origin() + quoted(o), seq![',']);
            lemma_chunk_split(s, p1, key_origin(), quoted(o));
            assert(parse_lit(s, p1, key_origin()) == Some(p1 + 9));
            lemma_parse_qstring_quoted(s, p1 + 9, o);
            ori_end = p2;
            assert(parse_lit(s, p1 + 9 + quoted(o).len(), seq![',']) == Some(p2));
        },
        None => {
            assert(p2 == p1);
            lemma_chunk_index(s, p2, t2, 1);
            assert(s[p1 + 1] == 'p');
            assert(parse_lit(s, p1, key_origin()) is None) by {
                if chunk_at(s, p1, key_origin()) {
                    assert(s.subrange(p1, p1 + 9)[1] == key_origin()[1]);
                    assert(s[p1 + 1] == 'o');
                }
            }
            ori_end = p1;
        },
    }
    assert(parse_lit(s, p2, key_parent()) == Some(p2 + 9));
    lemma_parse_qstring_quoted(s, p2 + 9, f.parent);
    assert(p2 + 9 + quoted(f.parent).len() == p4);
    assert(parse_lit(s, p4, seq![',']) == Some(p5));
    match f.url {
        Some(u) => {
            lemma_chunk_split(s, p5, key_url() + quoted(u), seq![',']);
            lemma_chunk_split(s, p5, key_url(), quoted(u));
            assert(parse_lit(s, p5, key_url()) == Some(p5 + 6));
            lemma_parse_qstring_quoted(s, p5 + 6, u);
            assert(parse_lit(s, p5 + 6 + quoted(u).len(), seq![',']) == Some(p6));
        },
        None => {
            assert(p6 == p5);
            lemma_chunk_index(s, p6, t6, 1);
            assert(s[p5 + 1] == 'n');
            assert(parse_lit(s, p5, key_url()) is None) by {
                if chunk_at(s, p5, key_url()) {
                    assert(s.subrange(p5, p5 + 6)[1] == key_url()[1]);
                    assert(s[p5 + 1] == 'u');
                }
            }
        },
    }
    assert(parse_lit(s, p6, key_name()) == Some(p6 + 7));
    lemma_parse_qstring_quoted(s, p6 + 7, f.name);
    assert(p6 + 7 + quoted(f.name).len() == p8);
    assert(parse_lit(s, p8, seq![',']) == Some(p9));
    assert(parse_lit(s, p9, key_size()) == Some(p10));
    lemma_chunk_index(s, p11, t11, 0);
    assert(s[p11] == '}');
    assert(!is_digit('}'));
    lemma_parse_u64_dec(s, p10, f.size);
    assert(parse_lit(s, p11, seq!['}']) == Some(p11 + 1));
    assert(p11 + 1 == i + file_json(f).len());
}

/// The list encoding after its first element: each further descriptor
/// behind one comma.
pub open spec fn rest_json(g: Seq<FileV>) -> Seq<char>
    decreases g.len(),
{
    if g.len() == 0 {
        Seq::empty()
    } else {
        rest_json(g.drop_last()) + seq![','] + file_json(g.last())
    }
}

/// The list encoding, read from the front.
proof fn lemma_files_json_first(fs: Seq<FileV>)
    requires
        fs.len() >= 1,
    ensures
        files_json(fs) =~= file_json(fs[0]) + rest_json(fs.drop_first()),
    decreases fs.len(),
{
    if fs.len() == 1 {
        assert(fs.drop_first() =~= Seq::<FileV>::empty());
        assert(rest_json(fs.drop_first()) =~= Seq::<char>::empty());
        assert(files_json(fs) =~= file_json(fs[0]) + rest_json(fs.drop_first()));
    } else {
        lemma_files_json_first(fs.drop_last());
        assert(fs.drop_last()[0] == fs[0]);
        assert(fs.drop_last().drop_first() =~= fs.drop_first().drop_last());
        assert(fs.drop_first().last() == fs.last());
        assert(files_json(fs) =~= file_json(fs[0]) + rest_json(fs.drop_first()));
    }
}

/// The tail encoding, read from the front.
proof fn lemma_rest_json_first(g: Seq<FileV>)
    requires
        g.len() >= 1,
    ensures
        rest_json(g) =~= seq![','] + file_json(g[0]) + rest_json(g.drop_first()),
    decreases g.len(),
{
    if g.len() == 1 {
        assert(g.drop_first() =~= Seq::<FileV>::empty());
        assert(g.drop_last() =~= Seq::<FileV>::empty());
        assert(rest_json(g.drop_first()) =~= Seq::<char>::empty());
        assert(rest_json(g) =~= seq![','] + file_json(g[0]) + rest_json(g.drop_first()));
    } else {
        lemma_rest_json_first(g.drop_last());
        assert(g.drop_last()[0] == g[0]);
        assert(g.drop_last().drop_first() =~= g.drop_first().drop_last());
        assert(g.drop_first().last() == g.last());
        assert(rest_json(g) =~= seq![','] + file_json(g[0]) + rest_json(g.drop_first()));
    }
}

/// Reading an encoded list tail accumulates exactly those descriptors.
proof fn lemma_parse_files_rest(s: Seq<char>, i: int, acc: Seq<FileV>, g: Seq<FileV>, fuel: nat)
    requires
        chunk_at(s, i, rest_json(g) + seq![']']),
        fuel >= g.len(),
    ensures
        parse_files_rest(s, i, acc, fuel) == Some((acc + g, i + rest_json(g).len() + 1)),
    decreases g.len(),
{
    if g.len() == 0 {
        assert(rest_json(g) =~= Seq::<char>::empty());
        assert(rest_json(g) + seq![']'] =~= seq![']']);
        assert(chunk_at(s, i, seq![']']));
        assert(acc + g =~= acc);
    } else {
        lemma_rest_json_first(g);
        let tail = rest_json(g.drop_first()) + seq![']'];
        assert(rest_json(g) + seq![']'] =~= seq![','] + (file_json(g[0]) + tail));
        assert(chunk_at(s, i, seq![','] + (file_json(g[0]) + tail)));
        lemma_chunk_split(s, i, seq![','], file_json(g[0]) + tail);
        lemma_chunk_split(s, i + 1, file_json(g[0]), tail);
        lemma_chunk_index(s, i, seq![','], 0);
        assert(s[i] == ',');
        assert(parse_lit(s, i, seq![']']) is None) by {
            if chunk_at(s, i, seq![']']) {
                assert(s.subrange(i, i + 1)[0] == ']');
                assert(s[i] == ']');
            }
        }
        lemma_parse_file_json(s, i + 1, g[0]);
        lemma_parse_files_rest(
            s,
            i + 1 + file_json(g[0]).len(),
            acc.push(g[0]),
            g.drop_first(),
            (fuel - 1) as nat,
        );
        assert(acc.push(g[0]) + g.drop_first() =~= acc + g);
    }
}

/// Reading an encoded list, closing bracket included, gives the list back.
proof fn lemma_parse_files_json(s: Seq<char>, i: int, fs: Seq<FileV>, fuel: nat)
    requires
        chunk_at(s, i, files_json(fs) + seq![']']),
        fuel >= fs.len(),
    ensures
        parse_files(s, i, fuel) == Some((fs, i + files_json(fs).len() + 1)),
{
    if fs.len() == 0 {
        assert(files_json(fs) =~= Seq::<char>::empty());
        assert(files_json(fs) + seq![']'] =~= seq![']']);
        assert(chunk_at(s, i, seq![']']));
        assert(Seq::<FileV>::empty() =~= fs);
    } else {
        lemma_files_json_first(fs);
        let tail = rest_json(fs.drop_first()) + seq![']'];
        assert(files_json(fs) + seq![']'] =~= file_json(fs[0]) + tail);
        assert(chunk_at(s, i, file_json(fs[0]) + tail));
        lemma_chunk_split(s, i, file_json(fs[0]), tail);
        lemma_chunk_index(s, i, file_json(fs[0]), 0);
        assert(file_json(fs[0])[0] == '{');
        assert(parse_lit(s, i, seq![']']) is None) by {
            if chunk_at(s, i, seq![']']) {
                assert(s.subrange(i, i + 1)[0] == ']');
                assert(s[i] == ']');
            }
        }
        lemma_parse_file_json(s, i, fs[0]);
        lemma_parse_files_rest(
            s,
            i + file_json(fs[0]).len(),
            seq![fs[0]],
            fs.drop_first(),
            fuel,
        );
        assert(seq![fs[0]] + fs.drop_first() =~= fs);
    }
}

/// An encoded list is at least as long as the list itself.
proof fn lemma_files_json_len(fs: Seq<FileV>)
    ensures
        files_json(fs).len() >= fs.len(),
    decreases fs.len(),
{
    if fs.len() > 1 {
        lemma_files_json_len(fs.drop_last());
    }
}

/// Shared opening of the payload proof: the object brace, the origin key
/// and the origin string parse off an encoded payload.
#[verifier::rlimit(100)]
#[verifier::spinoff_prover]
proof fn lemma_payload_head(p: PayloadV)
    ensures
        ({
            let s = payload_json(p);
            let t3 = match p.files {
                Some(fs) => key_files() + files_json(fs) + seq![']'],
                None => Seq::<char>::empty(),
            };
            let i3 = 10 + quoted(p.origin).len() as int;
            parse_lit(s, 0, seq!['{']) == Some(1int) && parse_lit(s, 1, key_origin()) == Some(
                10int,
            ) && parse_qstring(s, 10) == Some((p.origin, i3)) && chunk_at(s, i3, t3) && chunk_at(
                s,
                i3 + t3.len(),
                seq!['}'],
            ) && s.len() == i3 + t3.len() + 1
        }),
{
    let s = payload_json(p);
    assert(s.subrange(0, s.len() as int) =~= s);
    assert(chunk_at(s, 0, s));
    let t0 = seq!['{'];
    let t1 = key_origin();
    let t2 = quoted(p.origin);
    let t3 = match p.files {
        Some(fs) => key_files() + files_json(fs) + seq![']'],
        None => Seq::<char>::empty(),
    };
    let t4 = seq!['}'];
    lemma_chunk_split(s, 0, t0 + t1 + t2 + t3, t4);
    lemma_chunk_split(s, 0, t0 + t1 + t2, t3);
    lemma_chunk_split(s, 0, t0 + t1, t2);
    lemma_chunk_split(s, 0, t0, t1);
    assert(parse_lit(s, 0, seq!['{']) == Some(1int));
    assert(parse_lit(s, 1, key_origin()) == Some(10int));
    lemma_parse_qstring_quoted(s, 10, p.origin);
}

/// The wire format round-trips a whole payload: decoding an encoded payload
/// yields one equal in every field, an absent file list staying absent.
#[verifier::rlimit(100)]
#[verifier::spinoff_prover]
pub proof fn lemma_payload_round_trip(p: PayloadV)
    ensures
        spec_decode(payload_json(p)) == Some(p),
{
    lemma_payload_head(p);
    let s = payload_json(p);
    let t3 = match p.files {
        Some(fs) => key_files() + files_json(fs) + seq![']'],
        None => Seq::<char>::empty(),
    };
    let i3: int = 10 + quoted(p.origin).len() as int;
    match p.files {
        None => {
            assert(t3 =~= Seq::<char>::empty());
            assert(parse_lit(s, i3, seq!['}']) == Some(i3 + 1));
            assert(i3 + 1 == s.len());
        },
        Some(fs) => {
            assert(t3 =~= key_files() + (files_json(fs) + seq![']']));
            assert(chunk_at(s, i3, key_files() + (files_json(fs) + seq![']'])));
            lemma_chunk_split(s, i3, key_files(), files_json(fs) + seq![']']);
            lemma_chunk_index(s, i3, key_files(), 0);
            assert(s[i3] == ',');
            assert(parse_lit(s, i3, seq!['}']) is None) by {
                if chunk_at(s, i3, seq!['}']) {
                    assert(s.subrange(i3, i3 + 1)[0] == '}');
                    assert(s[i3] == '}');
                }
            }
            assert(parse_lit(s, i3, key_files()) == Some(i3 + 10));
            lemma_files_json_len(fs);
            lemma_parse_files_json(s, i3 + 10, fs, s.len());
            let i5: int = i3 + 10 + files_json(fs).len() as int + 1;
            assert(parse_lit(s, i5, seq!['}']) == Some(i5 + 1));
            assert(i5 + 1 == s.len());
        },
    }
}

/// The wire format round-trips a descriptor: parsing an encoded descriptor
/// yields one equal in every field, absent optional fields coming back
/// absent rather than present-but-empty.
pub proof fn lemma_file_round_trip(f: FileV)
    ensures
        parse_file(file_json(f), 0) == Some((f, file_json(f).len() as int)),
{
    assert(file_json(f).subrange(0, file_json(f).len() as int) =~= file_json(f));
    assert(chunk_at(file_json(f), 0, file_json(f)));
    lemma_parse_file_json(file_json(f), 0, f);
}

/// Appends the escaped body of `x` to `out`.
#[verifier::loop_isolation(false)]
fn append_escaped(out: &mut String, x: &str)
    ensures
        final(out)@ == old(out)@ + esc(x@),
{
    let xlen = x.unicode_len();
    let mut i: usize = 0;
    while i < xlen
        invariant
            i <= xlen,
            xlen == x@.len(),
            out@ =~= old(out)@ + esc(x@.take(i as int)),
        decreases xlen - i,
    {
        let c = x.get_char(i);
        if c == '"' || c == '\\' {
            push_char(out, '\\');
            push_char(out, c);
        } else {
            push_char(out, c);
        }
        i = i + 1;
        proof {
            assert(x@.take(i as int).drop_last() =~= x@.take(i - 1));
            assert(x@.take(i as int).last() == x@[i - 1]);
            assert(out@ =~= old(out)@ + esc(x@.take(i as int)));
        }
    }
    proof {
        assert(x@.take(xlen as int) =~= x@);
    }
}

/// Appends `x` as a JSON string to `out`.
fn append_quoted(out: &mut String, x: &str)
    ensures
        final(out)@ == old(out)@ + quoted(x@),
{
    push_char(out, '"');
    append_escaped(out, x);
    push_char(out, '"');
    proof {
        assert(out@ =~= old(out)@ + quoted(x@));
    }
}

/// Appends the decimal digits of `n` to `out`.
fn append_u64(out: &mut String, n: u64)
    ensures
        final(out)@ == old(out)@ + dec_nat(n as nat),
    decreases n,
{
    if n < 10 {
        push_char(out, digit_char_exec(n));
    } else {
        append_u64(out, n / 10);
        push_char(out, digit_char_exec(n % 10));
        proof {
            assert(out@ =~= old(out)@ + dec_nat(n as nat));
        }
    }
}

fn digit_char_exec(d: u64) -> (c: char)
    requires
        d < 10,
    ensures
        c == digit_char(d as nat),
{
    if d == 0 {
        '0'
    } else if d == 1 {
        '1'
    } else if d == 2 {
        '2'
    } else if d == 3 {
        '3'
    } else if d == 4 {
        '4'
    } else if d == 5 {
        '5'
    } else if d == 6 {
        '6'
    } else if d == 7 {
        '7'
    } else if d == 8 {
        '8'
    } else {
        '9'
    }
}

/// Appends one descriptor's wire object to `out`.
#[verifier::rlimit(100)]
fn append_file(out: &mut String, f: &File_)
    ensures
        final(out)@ == old(out)@ + file_json(f@),
{
    proof {
        reveal_strlit("\"origin\":");
        reveal_strlit("\"parent\":");
        reveal_strlit("\"url\":");
        reveal_strlit("\"name\":");
        reveal_strlit("\"size\":");
    }
    push_char(out, '{');
    match &f.origin {
        Some(o) => {
            out.append("\"origin\":");
            proof {
                assert("\"origin\":"@ =~= key_origin());
            }
            append_quoted(out, o.as_str());
            push_char(out, ',');
        },
        None => {},
    }
    out.append("\"parent\":");
    proof {
        assert("\"parent\":"@ =~= key_parent());
    }
    append_quoted(out, f.parent.as_str());
    push_char(out, ',');
    match &f.url {
        Some(u) => {
            out.append("\"url\":");
            proof {
                assert("\"url\":"@ =~= key_url());
            }
            append_quoted(out, u.as_str());
            push_char(out, ',');
        },
        None => {},
    }
    out.append("\"name\":");
    proof {
        assert("\"name\":"@ =~= key_name());
    }
    append_quoted(out, f.name.as_str());
    push_char(out, ',');
    out.append("\"size\":");
    proof {
        assert("\"size\":"@ =~= key_size());
    }
    append_u64(out, f.size);
    push_char(out, '}');
    proof {
        assert(out@ =~= old(out)@ + file_json(f@));
    }
}

/// Encodes a payload into its wire form.
#[verifier::rlimit(100)]
#[verifier::loop_isolation(false)]
pub fn encode_payload(p: &Payload) -> (r: String)
    ensures
        r@ == payload_json(p@),
{
    proof {
        reveal_strlit("\"origin\":");
        reveal_strlit(",\"files\":[");
    }
    let mut out = String::new();
    push_char(&mut out, '{');
    out.append("\"origin\":");
    proof {
        assert("\"origin\":"@ =~= key_origin());
    }
    append_quoted(&mut out, p.origin.as_str());
    match &p.files {
        Some(fs) => {
            out.append(",\"files\":[");
            proof {
                assert(",\"files\":["@ =~= key_files());
            }
            let ghost head = out@;
            let mut i: usize = 0;
            while i < fs.len()
                invariant
                    i <= fs.len(),
                    out@ =~= head + files_json(fs.deep_view().take(i as int)),
                decreases fs.len() - i,
            {
                if i > 0 {
                    push_char(&mut out, ',');
                }
                append_file(&mut out, &fs[i]);
                i = i + 1;
                proof {
                    assert(fs.deep_view().take(i as int).drop_last() =~= fs.deep_view().take(
                        i - 1,
                    ));
                    assert(fs.deep_view().take(i as int).last() == fs.deep_view()[i - 1]);
                    if i == 1 {
                        assert(files_json(fs.deep_view().take(1)) == file_json(
                            fs.deep_view()[0],
                        ));
                    }
                    assert(out@ =~= head + files_json(fs.deep_view().take(i as int)));
                }
            }
            proof {
                assert(fs.deep_view().take(fs.len() as int) =~= fs.deep_view());
            }
            push_char(&mut out, ']');
        },
        None => {},
    }
    push_char(&mut out, '}');
    proof {
        assert(out@ =~= payload_json(p@));
    }
    out
}

fn is_digit_exec(c: char) -> (r: bool)
    ensures
        r == is_digit(c),
{
    (c as u32) >= 48 && (c as u32) <= 57
}

/// Consumes the literal `t` at position `i`, if it is there.
#[verifier::loop_isolation(false)]
fn lit_at(s: &str, i: usize, t: &str) -> (r: Option<usize>)
    ensures
        match r {
            Some(j) => parse_lit(s@, i as int, t@) == Some(j as int) && j <= s@.len(),
            None => parse_lit(s@, i as int, t@) is None,
        },
{
    let slen = s.unicode_len();
    let tlen = t.unicode_len();
    if i > slen || tlen > slen - i {
        return None;
    }
    let mut k: usize = 0;
    while k < tlen
        invariant
            k <= tlen,
            i + tlen <= slen,
            slen == s@.len(),
            tlen == t@.len(),
            forall|m: int| 0 <= m < k ==> s@[i + m] == t@[m],
        decreases tlen - k,
    {
        if s.get_char(i + k) != t.get_char(k) {
            proof {
                assert(s@.subrange(i as int, i + tlen)[k as int] == s@[i + k]);
                assert(!chunk_at(s@, i as int, t@));
            }
            return None;
        }
        k = k + 1;
    }
    proof {
        assert forall|m: int| 0 <= m < tlen implies s@.subrange(i as int, i + tlen)[m] == t@[m] by {
            assert(s@.subrange(i as int, i + tlen)[m] == s@[i + m]);
        }
        assert(s@.subrange(i as int, i + tlen) =~= t@);
        assert(chunk_at(s@, i as int, t@));
    }
    Some(i + tlen)
}

/// Consumes a JSON string at position `i`, undoing the escapes.
#[verifier::loop_isolation(false)]
fn qstring_at(s: &str, i: usize) -> (r: Option<(String, usize)>)
    ensures
        match r {
            Some(v) => parse_qstring(s@, i as int) == Some((v.0@, v.1 as int)) && v.1 <= s@.len(),
            None => parse_qstring(s@, i as int) is None,
        },
{
    let slen = s.unicode_len();
    if !(i < slen) {
        return None;
    }
    if s.get_char(i) != '"' {
        return None;
    }
    let mut j: usize = i + 1;
    let mut out = String::new();
    loop
        invariant
            i + 1 <= j <= slen,
            slen == s@.len(),
            parse_str_body(s@, i + 1, Seq::<char>::empty()) == parse_str_body(s@, j as int, out@),
        decreases slen - j,
    {
        if !(j < slen) {
            return None;
        }
        let c = s.get_char(j);
        if c == '"' {
            return Some((out, j + 1));
        }
        if c == '\\' {
            if !(j + 1 < slen) {
                return None;
            }
            push_char(&mut out, s.get_char(j + 1));
            j = j + 2;
        } else {
            push_char(&mut out, c);
            j = j + 1;
        }
    }
}

/// Consumes a printed size at position `i`; refuses one beyond the 64-bit
/// range.
fn u64_at(s: &str, i: usize) -> (r: Option<(u64, usize)>)
    ensures
        match r {
            Some(v) => parse_u64(s@, i as int) == Some((v.0, v.1 as int)) && v.1 <= s@.len(),
            None => parse_u64(s@, i as int) is None,
        },
{
    let slen = s.unicode_len();
    if !(i < slen) {
        return None;
    }
    if !is_digit_exec(s.get_char(i)) {
        return None;
    }
    let mut j: usize = i;
    let mut acc: u64 = 0;
    let mut over: bool = false;
    let ghost mut gacc: nat = 0nat;
    loop
        invariant
            i <= j <= slen,
            slen == s@.len(),
            parse_digits(s@, i as int, 0nat) == parse_digits(s@, j as int, gacc),
            !over ==> gacc == acc as nat,
            over ==> gacc > u64::MAX as nat,
        ensures
            j >= slen || !is_digit(s@[j as int]),
            parse_digits(s@, i as int, 0nat) == parse_digits(s@, j as int, gacc),
            !over ==> gacc == acc as nat,
            over ==> gacc > u64::MAX as nat,
            j <= slen,
        decreases slen - j,
    {
        if !(j < slen) {
            break;
        }
        let c = s.get_char(j);
        if !is_digit_exec(c) {
            break;
        }
        let d: u64 = ((c as u32) - 48) as u64;
        proof {
            gacc = gacc * 10 + digit_val(c);
        }
        let wide: u128 = (acc as u128) * 10 + (d as u128);
        if over || wide > (u64::MAX as u128) {
            over = true;
        } else {
            acc = wide as u64;
        }
        j = j + 1;
    }
    proof {
        assert(parse_digits(s@, j as int, gacc) == (gacc, j as int));
    }
    if over {
        return None;
    }
    Some((acc, j))
}

/// Consumes one descriptor object at position `i`.
#[verifier::rlimit(100)]
fn file_at(s: &str, i: usize) -> (r: Option<(File_, usize)>)
    ensures
        match r {
            Some(v) => parse_file(s@, i as int) == Some((v.0@, v.1 as int)) && v.1 <= s@.len(),
            None => parse_file(s@, i as int) is None,
        },
{
    proof {
        reveal_strlit("{");
        reveal_strlit("}");
        reveal_strlit(",");
        reveal_strlit("\"origin\":");
        reveal_strlit("\"parent\":");
        reveal_strlit("\"url\":");
        reveal_strlit("\"name\":");
        reveal_strlit("\"size\":");
        assert("{"@ =~= seq!['{']);
        assert("}"@ =~= seq!['}']);
        assert(","@ =~= seq![',']);
        assert("\"origin\":"@ =~= key_origin());
        assert("\"parent\":"@ =~= key_parent());
        assert("\"url\":"@ =~= key_url());
        assert("\"name\":"@ =~= key_name());
        assert("\"size\":"@ =~= key_size());
    }
    let i1 = match lit_at(s, i, "{") {
        Some(j) => j,
        None => {
            return None;
        },
    };
    let ori: (Option<String>, usize) = match lit_at(s, i1, "\"origin\":") {
        Some(ia) => match qstring_at(s, ia) {
            Some((o, ib)) => match lit_at(s, ib, ",") {
                Some(ic) => (Some(o), ic),
                None => {
                    return None;
                },
            },
            None => {
                return None;
            },
        },
        None => (None, i1),
    };
    let i3 = match lit_at(s, ori.1, "\"parent\":") {
        Some(j) => j,
        None => {
            return None;
        },
    };
    let (parent, i4) = match qstring_at(s, i3) {
        Some(v) => v,
        None => {
            return None;
        },
    };
    let i5 = match lit_at(s, i4, ",") {
        Some(j) => j,
        None => {
            return None;
        },
    };
    let ur: (Option<String>, usize) = match lit_at(s, i5, "\"url\":") {
        Some(ia) => match qstring_at(s, ia) {
            Some((u, ib)) => match lit_at(s, ib, ",") {
                Some(ic) => (Some(u), ic),
                None => {
                    return None;
                },
            },
            None => {
                return None;
            },
        },
        None => (None, i5),
    };
    let i7 = match lit_at(s, ur.1, "\"name\":") {
        Some(j) => j,
        None => {
            return None;
        },
    };
    let (name, i8) = match qstring_at(s, i7) {
        Some(v) => v,
        None => {
            return None;
        },
    };
    let i9 = match lit_at(s, i8, ",") {
        Some(j) => j,
        None => {
            return None;
        },
    };
    let i10 = match lit_at(s, i9, "\"size\":") {
        Some(j) => j,
        None => {
            return None;
        },
    };
    let (size, i11) = match u64_at(s, i10) {
        Some(v) => v,
        None => {
            return None;
        },
    };
    let i12 = match lit_at(s, i11, "}") {
        Some(j) => j,
        None => {
            return None;
        },
    };
    Some((File_ { origin: ori.0, parent, url: ur.0, name, size }, i12))
}

/// Consumes the rest of a descriptor list after its first element.
#[verifier::rlimit(100)]
fn files_rest_at(s: &str, i: usize, acc: Vec<File_>, fuel: usize) -> (r: Option<(Vec<File_>, usize)>)
    ensures
        match r {
            Some(v) => parse_files_rest(s@, i as int, acc.deep_view(), fuel as nat) == Some(
                (v.0.deep_view(), v.1 as int),
            ) && v.1 <= s@.len(),
            None => parse_files_rest(s@, i as int, acc.deep_view(), fuel as nat) is None,
        },
    decreases fuel,
{
    proof {
        reveal_strlit("]");
        reveal_strlit(",");
        assert("]"@ =~= seq![']']);
        assert(","@ =~= seq![',']);
    }
    match lit_at(s, i, "]") {
        Some(j) => {
            return Some((acc, j));
        },
        None => {},
    }
    if fuel == 0 {
        return None;
    }
    let i1 = match lit_at(s, i, ",") {
        Some(j) => j,
        None => {
            return None;
        },
    };
    match file_at(s, i1) {
        None => None,
        Some((f, i2)) => {
            let ghost a0 = acc.deep_view();
            let mut acc2 = acc;
            acc2.push(f);
            proof {
                assert(acc2.deep_view() =~= a0.push(f@));
            }
            files_rest_at(s, i2, acc2, fuel - 1)
        },
    }
}

/// Consumes a whole descriptor list, closing bracket included.
fn files_at(s: &str, i: usize, fuel: usize) -> (r: Option<(Vec<File_>, usize)>)
    ensures
        match r {
            Some(v) => parse_files(s@, i as int, fuel as nat) == Some(
                (v.0.deep_view(), v.1 as int),
            ) && v.1 <= s@.len(),
            None => parse_files(s@, i as int, fuel as nat) is None,
        },
{
    proof {
        reveal_strlit("]");
        assert("]"@ =~= seq![']']);
    }
    match lit_at(s, i, "]") {
        Some(j) => {
            let out: Vec<File_> = Vec::new();
            proof {
                assert(out.deep_view() =~= Seq::<FileV>::empty());
            }
            return Some((out, j));
        },
        None => {},
    }
    match file_at(s, i) {
        None => None,
        Some((f, i1)) => {
            let mut acc: Vec<File_> = Vec::new();
            acc.push(f);
            proof {
                assert(acc.deep_view() =~= seq![f@]);
            }
            files_rest_at(s, i1, acc, fuel)
        },
    }
}

/// Decodes one payload that must fill the input exactly; anything else is
/// refused.
#[verifier::rlimit(100)]
pub fn decode_payload(s: &str) -> (r: Option<Payload>)
    ensures
        r.deep_view() == spec_decode(s@),
{
    proof {
        reveal_strlit("{");
        reveal_strlit("}");
        reveal_strlit("\"origin\":");
        reveal_strlit(",\"files\":[");
        assert("{"@ =~= seq!['{']);
        assert("}"@ =~= seq!['}']);
        assert("\"origin\":"@ =~= key_origin());
        assert(",\"files\":["@ =~= key_files());
    }
    let slen = s.unicode_len();
    let i1 = match lit_at(s, 0, "{") {
        Some(j) => j,
        None => {
            return None;
        },
    };
    let i2 = match lit_at(s, i1, "\"origin\":") {
        Some(j) => j,
        None => {
            return None;
        },
    };
    let (origin, i3) = match qstring_at(s, i2) {
        Some(v) => v,
        None => {
            return None;
        },
    };
    match lit_at(s, i3, "}") {
        Some(i4) => {
            if i4 == slen {
                return Some(Payload { origin, files: None });
            } else {
                return None;
            }
        },
        None => {},
    }
    let i4 = match lit_at(s, i3, ",\"files\":[") {
        Some(j) => j,
        None => {
            return None;
        },
    };
    let (fs, i5) = match files_at(s, i4, slen) {
        Some(v) => v,
        None => {
            return None;
        },
    };
    let i6 = match lit_at(s, i5, "}") {
        Some(j) => j,
        None => {
            return None;
        },
    };
    if i6 == slen {
        Some(Payload { origin, files: Some(fs) })
    } else {
        None
    }
}

} // verus!
