use vstd::prelude::*;
use vstd::string::StrSliceExecFns;
use vstd::string::StringExecFns;

verus! {

// ---------------------------------------------------------------------------
// Character classes
// ---------------------------------------------------------------------------

/// The Unicode white-space characters, as `char::is_whitespace` counts them.
pub open spec fn is_space(c: char) -> bool {
    ||| c as u32 == 0x9
    ||| c as u32 == 0xA
    ||| c as u32 == 0xB
    ||| c as u32 == 0xC
    ||| c as u32 == 0xD
    ||| c as u32 == 0x20
    ||| c as u32 == 0x85
    ||| c as u32 == 0xA0
    ||| c as u32 == 0x1680
    ||| (0x2000 <= c as u32 && c as u32 <= 0x200A)
    ||| c as u32 == 0x2028
    ||| c as u32 == 0x2029
    ||| c as u32 == 0x202F
    ||| c as u32 == 0x205F
    ||| c as u32 == 0x3000
}

pub fn is_space_char(c: char) -> (r: bool)
    ensures
        r == is_space(c),
{
    let u = c as u32;
    u == 0x9 || u == 0xA || u == 0xB || u == 0xC || u == 0xD || u == 0x20 || u == 0x85
        || u == 0xA0 || u == 0x1680 || (0x2000 <= u && u <= 0x200A) || u == 0x2028 || u == 0x2029
        || u == 0x202F || u == 0x205F || u == 0x3000
}

/// The ASCII white-space characters, as `char::is_ascii_whitespace` counts them.
pub open spec fn is_ascii_space(c: char) -> bool {
    c == ' ' || c == '\t' || c == '\n' || c == '\r' || c as u32 == 0xC
}

pub fn is_ascii_space_char(c: char) -> (r: bool)
    ensures
        r == is_ascii_space(c),
{
    c == ' ' || c == '\t' || c == '\n' || c == '\r' || c as u32 == 0xC
}

// ---------------------------------------------------------------------------
// Building strings
// ---------------------------------------------------------------------------

/// Relies on std's `String::push`: appends the one character at the end of the
/// string and changes nothing else.
#[verifier::external_body]
pub fn push_char(s: &mut String, c: char)
    ensures
        final(s)@ == old(s)@.push(c),
{
    s.push(c);
}

// ---------------------------------------------------------------------------
// Removing every occurrence of one character
// ---------------------------------------------------------------------------

pub open spec fn remove_char(s: Seq<char>, c: char) -> Seq<char>
    decreases s.len(),
{
    if s.len() == 0 {
        Seq::empty()
    } else if s.last() == c {
        remove_char(s.drop_last(), c)
    } else {
        remove_char(s.drop_last(), c).push(s.last())
    }
}

/// The text with every occurrence of `c` removed, as `str::replace(c, "")`
/// produces it.
pub fn strip_char(s: &str, c: char) -> (r: String)
    ensures
        r@ == remove_char(s@, c),
{
    let n = s.unicode_len();
    let mut r = String::new();
    let mut i: usize = 0;
    while i < n
        invariant
            i <= n,
            n == s@.len(),
            r@ == remove_char(s@.take(i as int), c),
        decreases n - i,
    {
        let ch = s.get_char(i);
        proof {
            assert(s@.take(i + 1).drop_last() =~= s@.take(i as int));
            assert(s@.take(i + 1).last() == s@[i as int]);
        }
        if ch != c {
            push_char(&mut r, ch);
        }
        i += 1;
    }
    proof {
        assert(s@.take(n as int) =~= s@);
    }
    r
}

// ---------------------------------------------------------------------------
// Trimming surrounding white space
// ---------------------------------------------------------------------------

pub open spec fn trim_front(s: Seq<char>) -> Seq<char>
    decreases s.len(),
{
    if s.len() > 0 && is_space(s[0]) {
        trim_front(s.drop_first())
    } else {
        s
    }
}

pub open spec fn trim_back(s: Seq<char>) -> Seq<char>
    decreases s.len(),
{
    if s.len() > 0 && is_space(s.last()) {
        trim_back(s.drop_last())
    } else {
        s
    }
}

/// The text with leading and trailing white space removed, as `str::trim`
/// produces it.
pub open spec fn trim(s: Seq<char>) -> Seq<char> {
    trim_back(trim_front(s))
}

proof fn lemma_trim_front(s: Seq<char>, k: int)
    requires
        0 <= k <= s.len(),
        forall|j: int| 0 <= j < k ==> is_space(s[j]),
        k == s.len() || !is_space(s[k]),
    ensures
        trim_front(s) == s.skip(k),
    decreases k,
{
    if k == 0 {
        assert(s.skip(0) =~= s);
    } else {
        assert(is_space(s[0]));
        lemma_trim_front(s.drop_first(), k - 1);
        assert(s.drop_first().skip(k - 1) =~= s.skip(k));
    }
}

proof fn lemma_trim_back(s: Seq<char>, k: int)
    requires
        0 <= k <= s.len(),
        forall|j: int| k <= j < s.len() ==> is_space(s[j]),
        k == 0 || !is_space(s[k - 1]),
    ensures
        trim_back(s) == s.take(k),
    decreases s.len(),
{
    if k < s.len() {
        assert(is_space(s.last()));
        lemma_trim_back(s.drop_last(), k);
        assert(s.drop_last().take(k) =~= s.take(k));
    } else {
        if s.len() > 0 {
            assert(!is_space(s[k - 1]));
        }
        assert(s.take(k) =~= s);
    }
}

pub fn trim_str(s: &str) -> (r: String)
    ensures
        r@ == trim(s@),
{
    let n = s.unicode_len();
    let mut a: usize = 0;
    while a < n && is_space_char(s.get_char(a))
        invariant
            a <= n,
            n == s@.len(),
            forall|j: int| 0 <= j < a ==> is_space(s@[j]),
        decreases n - a,
    {
        a += 1;
    }
    let mut b: usize = n;
    while b > a && is_space_char(s.get_char(b - 1))
        invariant
            a <= b <= n,
            n == s@.len(),
            forall|j: int| 0 <= j < a ==> is_space(s@[j]),
            forall|j: int| b <= j < n ==> is_space(s@[j]),
        decreases b,
    {
        b -= 1;
    }
    let t = s.substring_char(a, b);
    proof {
        lemma_trim_front(s@, a as int);
        let rest = s@.skip(a as int);
        assert(forall|j: int|
            b - a <= j < rest.len() ==> is_space(#[trigger] rest[j]) && rest[j] == s@[j + a]);
        if b > a {
            assert(rest[b - a - 1] == s@[b - 1]);
        }
        lemma_trim_back(rest, b - a);
        assert(rest.take(b - a) =~= s@.subrange(a as int, b as int));
    }
    String::from_str(t)
}

// ---------------------------------------------------------------------------
// Splitting into white-space separated tokens
// ---------------------------------------------------------------------------

pub open spec fn split_ws_at(s: Seq<char>, i: int, cur: Seq<char>, acc: Seq<Seq<char>>) -> Seq<
    Seq<char>,
>
    decreases s.len() - i,
{
    if i >= s.len() {
        if cur.len() > 0 {
            acc.push(cur)
        } else {
            acc
        }
    } else if is_ascii_space(s[i]) {
        split_ws_at(
            s,
            i + 1,
            Seq::empty(),
            if cur.len() > 0 {
                acc.push(cur)
            } else {
                acc
            },
        )
    } else {
        split_ws_at(s, i + 1, cur.push(s[i]), acc)
    }
}

/// The maximal ASCII-white-space-free tokens of the text, in order, as
/// `str::split_ascii_whitespace` yields them.
pub open spec fn split_ws(s: Seq<char>) -> Seq<Seq<char>> {
    split_ws_at(s, 0, Seq::empty(), Seq::empty())
}

pub open spec fn views_of(v: Seq<String>) -> Seq<Seq<char>> {
    v.map_values(|x: String| x@)
}

pub fn split_ws_str(s: &str) -> (r: Vec<String>)
    ensures
        views_of(r@) == split_ws(s@),
{
    let n = s.unicode_len();
    let mut acc: Vec<String> = Vec::new();
    let mut cur = String::new();
    let mut i: usize = 0;
    proof {
        assert(views_of(acc@) =~= Seq::<Seq<char>>::empty());
    }
    while i < n
        invariant
            i <= n,
            n == s@.len(),
            split_ws(s@) == split_ws_at(s@, i as int, cur@, views_of(acc@)),
        decreases n - i,
    {
        let ghost i0 = i as int;
        let ghost cur0 = cur@;
        let ghost acc0 = views_of(acc@);
        let c = s.get_char(i);
        if is_ascii_space_char(c) {
            if !cur.as_str().is_empty() {
                acc.push(cur);
                cur = String::new();
                proof {
                    assert(views_of(acc@) =~= acc0.push(cur0));
                    assert(split_ws_at(s@, i0, cur0, acc0) == split_ws_at(
                        s@,
                        i0 + 1,
                        Seq::<char>::empty(),
                        acc0.push(cur0),
                    ));
                }
            } else {
                proof {
                    assert(cur0 =~= Seq::<char>::empty());
                    assert(split_ws_at(s@, i0, cur0, acc0) == split_ws_at(
                        s@,
                        i0 + 1,
                        Seq::<char>::empty(),
                        acc0,
                    ));
                }
            }
        } else {
            push_char(&mut cur, c);
            proof {
                assert(split_ws_at(s@, i0, cur0, acc0) == split_ws_at(
                    s@,
                    i0 + 1,
                    cur0.push(s@[i0]),
                    acc0,
                ));
            }
        }
        i += 1;
    }
    let ghost accn = views_of(acc@);
    let ghost curn = cur@;
    if !cur.as_str().is_empty() {
        acc.push(cur);
        proof {
            assert(views_of(acc@) =~= accn.push(curn));
        }
    }
    acc
}

// ---------------------------------------------------------------------------
// Splitting into lines
// ---------------------------------------------------------------------------

pub open spec fn split_nl_at(s: Seq<char>, i: int, cur: Seq<char>, acc: Seq<Seq<char>>) -> Seq<
    Seq<char>,
>
    decreases s.len() - i,
{
    if i >= s.len() {
        acc.push(cur)
    } else if s[i] == '\n' {
        split_nl_at(s, i + 1, Seq::empty(), acc.push(cur))
    } else {
        split_nl_at(s, i + 1, cur.push(s[i]), acc)
    }
}

/// The segments between newline characters, empty segments kept, as
/// `str::split('\n')` yields them.
pub open spec fn split_nl(s: Seq<char>) -> Seq<Seq<char>> {
    split_nl_at(s, 0, Seq::empty(), Seq::empty())
}

pub fn split_nl_str(s: &str) -> (r: Vec<String>)
    ensures
        views_of(r@) == split_nl(s@),
{
    let n = s.unicode_len();
    let mut acc: Vec<String> = Vec::new();
    let mut cur = String::new();
    let mut i: usize = 0;
    proof {
        assert(views_of(acc@) =~= Seq::<Seq<char>>::empty());
    }
    while i < n
        invariant
            i <= n,
            n == s@.len(),
            split_nl(s@) == split_nl_at(s@, i as int, cur@, views_of(acc@)),
        decreases n - i,
    {
        let ghost i0 = i as int;
        let ghost cur0 = cur@;
        let ghost acc0 = views_of(acc@);
        let c = s.get_char(i);
        if c == '\n' {
            acc.push(cur);
            cur = String::new();
            proof {
                assert(views_of(acc@) =~= acc0.push(cur0));
                assert(split_nl_at(s@, i0, cur0, acc0) == split_nl_at(
                    s@,
                    i0 + 1,
                    Seq::<char>::empty(),
                    acc0.push(cur0),
                ));
            }
        } else {
            push_char(&mut cur, c);
            proof {
                assert(split_nl_at(s@, i0, cur0, acc0) == split_nl_at(
                    s@,
                    i0 + 1,
                    cur0.push(s@[i0]),
                    acc0,
                ));
            }
        }
        i += 1;
    }
    let ghost accn = views_of(acc@);
    let ghost curn = cur@;
    acc.push(cur);
    proof {
        assert(views_of(acc@) =~= accn.push(curn));
    }
    acc
}

// ---------------------------------------------------------------------------
// Comparison, prefixes and substrings
// ---------------------------------------------------------------------------

pub fn str_eq(a: &str, b: &str) -> (r: bool)
    ensures
        r == (a@ == b@),
{
    let n = a.unicode_len();
    let m = b.unicode_len();
    if n != m {
        return false;
    }
    let mut i: usize = 0;
    while i < n
        invariant
            i <= n,
            n == a@.len() == b@.len(),
            forall|j: int| 0 <= j < i ==> a@[j] == b@[j],
        decreases n - i,
    {
        if a.get_char(i) != b.get_char(i) {
            return false;
        }
        i += 1;
    }
    proof {
        assert(a@ =~= b@);
    }
    true
}

/// `p` occurs in `s` starting at position `k`.
pub open spec fn has_prefix_at(s: Seq<char>, p: Seq<char>, k: int) -> bool {
    0 <= k && k + p.len() <= s.len() && forall|j: int| 0 <= j < p.len() ==> s[k + j] == p[j]
}

pub open spec fn has_prefix(s: Seq<char>, p: Seq<char>) -> bool {
    has_prefix_at(s, p, 0)
}

/// `p` occurs somewhere in `s`, as `str::contains` decides it.
pub open spec fn contains_sub(s: Seq<char>, p: Seq<char>) -> bool {
    exists|k: int| has_prefix_at(s, p, k)
}

pub fn contains_str(s: &str, p: &str) -> (r: bool)
    ensures
        r == contains_sub(s@, p@),
{
    let n = s.unicode_len();
    let m = p.unicode_len();
    if m > n {
        return false;
    }
    let mut k: usize = 0;
    while k <= n - m
        invariant
            m <= n,
            n == s@.len(),
            m == p@.len(),
            k <= n - m + 1,
            forall|kk: int| 0 <= kk < k ==> !has_prefix_at(s@, p@, kk),
        decreases n - m - k + 1,
    {
        let mut j: usize = 0;
        let mut ok = true;
        while j < m && ok
            invariant
                m <= n,
                n == s@.len(),
                m == p@.len(),
                k + m <= n,
                j <= m,
                ok ==> forall|jj: int| 0 <= jj < j ==> s@[k + jj] == p@[jj],
                !ok ==> !has_prefix_at(s@, p@, k as int),
            decreases m - j + (if ok { 1int } else { 0int }),
        {
            if s.get_char(k + j) != p.get_char(j) {
                ok = false;
            } else {
                j += 1;
            }
        }
        if ok {
            assert(has_prefix_at(s@, p@, k as int));
            return true;
        }
        k += 1;
    }
    assert(forall|kk: int| has_prefix_at(s@, p@, kk) ==> 0 <= kk <= n - m);
    false
}

/// The remainder after the prefix `p`, or nothing where `s` does not begin
/// with `p`, as `str::strip_prefix` hands it out.
pub fn strip_prefix_str(s: &str, p: &str) -> (r: Option<String>)
    ensures
        r is Some <==> has_prefix(s@, p@),
        r is Some ==> r->0@ == s@.skip(p@.len() as int),
{
    let n = s.unicode_len();
    let m = p.unicode_len();
    if m > n {
        return None;
    }
    let mut j: usize = 0;
    while j < m
        invariant
            m <= n,
            n == s@.len(),
            m == p@.len(),
            j <= m,
            forall|jj: int| 0 <= jj < j ==> s@[jj] == p@[jj],
        decreases m - j,
    {
        if s.get_char(j) != p.get_char(j) {
            assert(!has_prefix(s@, p@));
            return None;
        }
        j += 1;
    }
    let t = s.substring_char(m, n);
    proof {
        assert(has_prefix(s@, p@));
        assert(s@.subrange(m as int, n as int) =~= s@.skip(m as int));
    }
    Some(String::from_str(t))
}

/// The position of the first occurrence of `c` in `s` at or after `i`, or -1.
pub open spec fn find_from(s: Seq<char>, c: char, i: int) -> int
    decreases s.len() - i,
{
    if i < 0 || i >= s.len() {
        -1
    } else if s[i] == c {
        i
    } else {
        find_from(s, c, i + 1)
    }
}

pub fn find_char(s: &str, c: char) -> (r: Option<usize>)
    ensures
        r is Some <==> find_from(s@, c, 0) >= 0,
        r is Some ==> r->0 == find_from(s@, c, 0) && r->0 < s@.len() && s@[r->0 as int] == c,
{
    let n = s.unicode_len();
    let mut i: usize = 0;
    while i < n
        invariant
            i <= n,
            n == s@.len(),
            find_from(s@, c, 0) == find_from(s@, c, i as int),
        decreases n - i,
    {
        if s.get_char(i) == c {
            return Some(i);
        }
        i += 1;
    }
    None
}

/// Whether `c` occurs in `s` at a position in `[a, b)`.
pub fn has_char_in(s: &str, c: char, a: usize, b: usize) -> (r: bool)
    requires
        a <= b <= s@.len(),
    ensures
        r == exists|j: int| a <= j < b && s@[j] == c,
{
    let mut i: usize = a;
    while i < b
        invariant
            a <= i <= b <= s@.len(),
            forall|j: int| a <= j < i ==> s@[j] != c,
        decreases b - i,
    {
        if s.get_char(i) == c {
            return true;
        }
        i += 1;
    }
    false
}

} // verus!
