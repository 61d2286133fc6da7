use vstd::prelude::*;

verus! {

/// The characters of `s`, in order.
pub fn chars_of(s: &str) -> (res: Vec<char>)
    ensures
        res@ == s@,
{
    let mut res: Vec<char> = Vec::new();
    for c in it: s.chars()
        invariant
            res@ == it.seq().take(it.index() as int),
            it.seq() == s@,
    {
        res.push(c);
    }
    res
}


/// Whether `s` begins with `p`.
pub open spec fn starts_with(s: Seq<char>, p: Seq<char>) -> bool {
    p.len() <= s.len() && s.take(p.len() as int) == p
}

/// `s` with every occurrence of the non-empty pattern `p` removed, the
/// occurrences taken left to right without overlap.
pub open spec fn remove_all(s: Seq<char>, p: Seq<char>) -> Seq<char>
    decreases s.len(),
{
    if s.len() == 0 || p.len() == 0 {
        s
    } else if starts_with(s, p) {
        remove_all(s.skip(p.len() as int), p)
    } else {
        seq![s[0]] + remove_all(s.skip(1), p)
    }
}

/// The Unicode `White_Space` characters.
pub open spec fn is_white_space(c: char) -> bool {
    let u = c as u32;
    ||| 0x09 <= u <= 0x0D
    ||| u == 0x20
    ||| u == 0x85
    ||| u == 0xA0
    ||| u == 0x1680
    ||| 0x2000 <= u <= 0x200A
    ||| u == 0x2028
    ||| u == 0x2029
    ||| u == 0x202F
    ||| u == 0x205F
    ||| u == 0x3000
}

pub fn white_space(c: char) -> (r: bool)
    ensures
        r == is_white_space(c),
{
    let u = c as u32;
    (0x09 <= u && u <= 0x0D) || u == 0x20 || u == 0x85 || u == 0xA0 || u == 0x1680 || (0x2000
        <= u && u <= 0x200A) || u == 0x2028 || u == 0x2029 || u == 0x202F || u == 0x205F || u
        == 0x3000
}

/// `s` without its leading white space.
pub open spec fn trim_start(s: Seq<char>) -> Seq<char>
    decreases s.len(),
{
    if s.len() > 0 && is_white_space(s[0]) {
        trim_start(s.drop_first())
    } else {
        s
    }
}

/// `s` without its trailing white space.
pub open spec fn trim_end(s: Seq<char>) -> Seq<char>
    decreases s.len(),
{
    if s.len() > 0 && is_white_space(s.last()) {
        trim_end(s.drop_last())
    } else {
        s
    }
}

/// `s` without leading and trailing white space.
pub open spec fn trim(s: Seq<char>) -> Seq<char> {
    trim_end(trim_start(s))
}

proof fn lemma_trim_start_skip(s: Seq<char>, i: int)
    requires
        0 <= i <= s.len(),
        forall|k: int| 0 <= k < i ==> is_white_space(#[trigger] s[k]),
        i == s.len() || !is_white_space(s[i]),
    ensures
        trim_start(s) =~= s.skip(i),
    decreases i,
{
    if i > 0 {
        lemma_trim_start_skip(s.drop_first(), i - 1);
        assert(s.drop_first().skip(i - 1) =~= s.skip(i));
    } else {
        assert(s.skip(0) =~= s);
    }
}

proof fn lemma_trim_end_take(s: Seq<char>, j: int)
    requires
        0 <= j <= s.len(),
        forall|k: int| j <= k < s.len() ==> is_white_space(#[trigger] s[k]),
        j == 0 || !is_white_space(s[j - 1]),
    ensures
        trim_end(s) =~= s.take(j),
    decreases s.len() - j,
{
    if j < s.len() {
        lemma_trim_end_take(s.drop_last(), j);
        assert(s.drop_last().take(j) =~= s.take(j));
    } else {
        assert(s.take(j) =~= s);
    }
}

/// `s` without leading and trailing white space.
pub fn trim_str(s: &str) -> (res: String)
    ensures
        res@ == trim(s@),
{
    let chars = chars_of(s);
    let n = chars.len();
    let mut i: usize = 0;
    while i < n && white_space(chars[i])
        invariant
            i <= n,
            n == chars@.len(),
            chars@ == s@,
            forall|k: int| 0 <= k < i ==> is_white_space(#[trigger] chars@[k]),
        decreases n - i,
    {
        i = i + 1;
    }
    let mut j: usize = n;
    while j > i && white_space(chars[j - 1])
        invariant
            i <= j <= n,
            n == chars@.len(),
            chars@ == s@,
            forall|k: int| j <= k < n ==> is_white_space(#[trigger] chars@[k]),
        decreases j,
    {
        j = j - 1;
    }
    proof {
        lemma_trim_start_skip(s@, i as int);
        let t = s@.skip(i as int);
        assert forall|k: int| (j - i) <= k < t.len() implies is_white_space(#[trigger] t[k]) by {
            assert(t[k] == chars@[k + i]);
        }
        if j > i {
            assert(t[j - i - 1] == chars@[j - 1]);
        }
        lemma_trim_end_take(t, j - i);
        assert(t.take(j - i) =~= s@.subrange(i as int, j as int));
    }
    String::from_str(s.substring_char(i, j))
}

/// `s` with every occurrence of `pat` removed (occurrences taken left to
/// right, without overlap).
pub fn remove_all_str(s: &str, pat: &str) -> (res: String)
    requires
        pat@.len() > 0,
    ensures
        res@ == remove_all(s@, pat@),
{
    let chars = chars_of(s);
    let p = chars_of(pat);
    let n = chars.len();
    let m = p.len();
    let mut res = String::new();
    let mut i: usize = 0;
    assert(s@.skip(0) =~= s@);
    while i < n
        invariant
            i <= n,
            n == s@.len(),
            m == pat@.len(),
            m > 0,
            chars@ == s@,
            p@ == pat@,
            res@ + remove_all(s@.skip(i as int), pat@) == remove_all(s@, pat@),
        decreases n - i,
    {
        let ghost rest = s@.skip(i as int);
        let fits = m <= n - i;
        let mut k: usize = 0;
        if fits {
            while k < m && chars[i + k] == p[k]
                invariant
                    k <= m,
                    m == p@.len(),
                    i + m <= n,
                    n == chars@.len(),
                    forall|q: int| 0 <= q < k ==> chars@[i + q] == p@[q],
                decreases m - k,
            {
                k = k + 1;
            }
        }
        let matches = fits && k == m;
        proof {
            if matches {
                assert(rest.take(m as int) =~= pat@) by {
                    assert forall|q: int| 0 <= q < m implies rest.take(m as int)[q] == pat@[q] by {
                        assert(rest[q] == chars@[i + q]);
                    }
                }
                assert(rest.skip(m as int) =~= s@.skip(i + m));
            } else {
                if fits {
                    assert(rest.take(m as int)[k as int] != pat@[k as int]);
                }
                assert(rest.skip(1) =~= s@.skip(i + 1));
            }
        }
        if matches {
            i = i + m;
        } else {
            let piece = s.substring_char(i, i + 1);
            proof {
                assert(piece@ =~= seq![rest[0]]);
                assert(res@ + piece@ + remove_all(s@.skip(i + 1), pat@) =~= res@ + (seq![rest[0]]
                    + remove_all(rest.skip(1), pat@)));
            }
            res.append(piece);
            i = i + 1;
        }
    }
    proof {
        assert(s@.skip(n as int) =~= Seq::<char>::empty());
        assert(res@ + Seq::<char>::empty() =~= res@);
    }
    res
}

/// Whether `s` begins with `p`.
pub fn str_starts_with(s: &str, p: &str) -> (r: bool)
    ensures
        r == starts_with(s@, p@),
{
    let a = chars_of(s);
    let b = chars_of(p);
    if b.len() > a.len() {
        return false;
    }
    let mut k: usize = 0;
    while k < b.len()
        invariant
            k <= b@.len() <= a@.len(),
            a@ == s@,
            b@ == p@,
            forall|q: int| 0 <= q < k ==> a@[q] == b@[q],
        decreases b@.len() - k,
    {
        if a[k] != b[k] {
            proof {
                assert(s@.take(p@.len() as int)[k as int] != p@[k as int]);
            }
            return false;
        }
        k = k + 1;
    }
    assert(s@.take(p@.len() as int) =~= p@);
    true
}

/// Whether `a` and `b` hold the same characters.
pub fn str_eq(a: &str, b: &str) -> (r: bool)
    ensures
        r == (a@ == b@),
{
    let x = chars_of(a);
    let y = chars_of(b);
    if x.len() != y.len() {
        return false;
    }
    let mut k: usize = 0;
    while k < x.len()
        invariant
            k <= x@.len() == y@.len(),
            x@ == a@,
            y@ == b@,
            forall|q: int| 0 <= q < k ==> x@[q] == y@[q],
        decreases x@.len() - k,
    {
        if x[k] != y[k] {
            return false;
        }
        k = k + 1;
    }
    assert(x@ =~= y@);
    true
}
} // verus!
