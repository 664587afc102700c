use vstd::prelude::*;

verus! {

/// Strict lexicographic order on character sequences, compared from
/// position `i` on: the order Rust's byte-wise string comparison induces
/// on the characters themselves.
pub open spec fn lex_lt_from(a: Seq<char>, b: Seq<char>, i: int) -> bool
    decreases b.len() - i,
{
    if i < 0 {
        false
    } else if i >= b.len() {
        false
    } else if i >= a.len() {
        true
    } else if (a[i] as u32) < (b[i] as u32) {
        true
    } else if a[i] == b[i] {
        lex_lt_from(a, b, i + 1)
    } else {
        false
    }
}

/// Strict lexicographic order on character sequences.
pub open spec fn lex_lt(a: Seq<char>, b: Seq<char>) -> bool {
    lex_lt_from(a, b, 0)
}

/// `a` comes strictly before `b` lexicographically.
#[verifier::loop_isolation(false)]
pub fn str_lt(a: &str, b: &str) -> (r: bool)
    ensures
        r == lex_lt(a@, b@),
{
    let alen = a.unicode_len();
    let blen = b.unicode_len();
    let mut i: usize = 0;
    loop
        invariant
            i <= alen,
            i <= blen,
            alen == a@.len(),
            blen == b@.len(),
            lex_lt(a@, b@) == lex_lt_from(a@, b@, i as int),
        decreases blen - i,
    {
        if i >= blen {
            return false;
        }
        if i >= alen {
            return true;
        }
        let ca = a.get_char(i);
        let cb = b.get_char(i);
        if (ca as u32) < (cb as u32) {
            return true;
        }
        if ca != cb {
            return false;
        }
        i = i + 1;
    }
}

/// `p` is a prefix of `s`.
pub open spec fn is_prefix(p: Seq<char>, s: Seq<char>) -> bool {
    p.len() <= s.len() && forall|j: int| 0 <= j < p.len() ==> s[j] == p[j]
}

/// Whether the characters of `p` open the string `s`.
#[verifier::loop_isolation(false)]
pub fn str_is_prefix(p: &str, s: &str) -> (r: bool)
    ensures
        r == is_prefix(p@, s@),
{
    let plen = p.unicode_len();
    let slen = s.unicode_len();
    if plen > slen {
        return false;
    }
    let mut i: usize = 0;
    while i < plen
        invariant
            plen <= slen,
            i <= plen,
            plen == p@.len(),
            slen == s@.len(),
            forall|j: int| 0 <= j < i ==> s@[j] == p@[j],
        decreases plen - i,
    {
        if p.get_char(i) != s.get_char(i) {
            return false;
        }
        i = i + 1;
    }
    true
}

/// Position of the first `/` in `s` at or after `i`, or the length of `s`
/// if no further `/` occurs.
pub open spec fn seg_end(s: Seq<char>, i: int) -> int
    decreases s.len() - i,
{
    if i < 0 {
        i
    } else if i >= s.len() {
        i
    } else if s[i] == '/' {
        i
    } else {
        seg_end(s, i + 1)
    }
}

/// Index of the first `/` in `s` at or after `from` (the length of `s` if none).
#[verifier::loop_isolation(false)]
pub fn find_slash(s: &str, from: usize) -> (r: usize)
    requires
        from <= s@.len(),
    ensures
        r == seg_end(s@, from as int),
        from <= r <= s@.len(),
{
    let slen = s.unicode_len();
    let mut i: usize = from;
    while i < slen
        invariant
            from <= i <= slen,
            slen == s@.len(),
            seg_end(s@, from as int) == seg_end(s@, i as int),
        decreases slen - i,
    {
        if s.get_char(i) == '/' {
            return i;
        }
        i = i + 1;
    }
    i
}

/// The original string with a leading slash added when `start` asks for one
/// and none is there, and then a trailing slash added when `end` asks for one
/// and none is there.
pub open spec fn or_insert_spec(s: Seq<char>, start: bool, end: bool) -> Seq<char> {
    let s1 = if start && !(s.len() > 0 && s[0] == '/') {
        seq!['/'] + s
    } else {
        s
    };
    if end && !(s1.len() > 0 && s1[s1.len() - 1] == '/') {
        s1 + seq!['/']
    } else {
        s1
    }
}

/// Normalizes a path: guarantees a leading slash when `start` holds and a
/// trailing slash when `end` holds, leaving the string alone otherwise.
pub fn or_insert(s: &str, start: bool, end: bool) -> (r: String)
    ensures
        r@ == or_insert_spec(s@, start, end),
{
    proof {
        reveal_strlit("/");
    }
    let mut r = String::new();
    let slen = s.unicode_len();
    if start && !(slen > 0 && s.get_char(0) == '/') {
        r.append("/");
        proof {
            assert(r@ =~= seq!['/']);
        }
    }
    r.append(s);
    proof {
        assert(if start && !(s@.len() > 0 && s@[0] == '/') {
            r@ =~= seq!['/'] + s@
        } else {
            r@ =~= s@
        });
    }
    let rlen = r.as_str().unicode_len();
    if end && !(rlen > 0 && r.as_str().get_char(rlen - 1) == '/') {
        r.append("/");
        proof {
            assert(r@ =~= or_insert_spec(s@, start, end));
        }
    } else {
        proof {
            assert(r@ =~= or_insert_spec(s@, start, end));
        }
    }
    r
}

} // verus!
