//! Character-level helpers over `str`, each stated over `Seq<char>`.

use vstd::prelude::*;
use vstd::string::{StrSliceExecFns, StringExecFns};

verus! {

/// `p` is a prefix of `s`.
pub open spec fn is_prefix(p: Seq<char>, s: Seq<char>) -> bool {
    p.len() <= s.len() && s.subrange(0, p.len() as int) == p
}

/// `p` is a suffix of `s`.
pub open spec fn is_suffix(p: Seq<char>, s: Seq<char>) -> bool {
    p.len() <= s.len() && s.subrange(s.len() - p.len(), s.len() as int) == p
}

/// Whether `s` starts with `p`.
pub fn starts_with(s: &str, p: &str) -> (r: bool)
    ensures
        r == is_prefix(p@, s@),
{
    let n = p.unicode_len();
    let m = s.unicode_len();
    if n > m {
        return false;
    }
    let mut i: usize = 0;
    while i < n
        invariant
            i <= n <= m,
            n == p@.len(),
            m == s@.len(),
            forall|j: int| 0 <= j < i ==> s@[j] == p@[j],
        decreases n - i,
    {
        if s.get_char(i) != p.get_char(i) {
            assert(s@.subrange(0, n as int)[i as int] != p@[i as int]);
            return false;
        }
        i += 1;
    }
    assert(s@.subrange(0, n as int) =~= p@);
    true
}

/// Whether the characters of `s` in `[end - p.len(), end)` are those of `p`.
pub fn ends_at(s: &str, end: usize, p: &str) -> (r: bool)
    requires
        end <= s@.len(),
    ensures
        r == is_suffix(p@, s@.subrange(0, end as int)),
{
    let n = p.unicode_len();
    if n > end {
        return false;
    }
    let start = end - n;
    let mut i: usize = 0;
    while i < n
        invariant
            i <= n <= end <= s@.len(),
            start == end - n,
            n == p@.len(),
            forall|j: int| 0 <= j < i ==> s@[start + j] == p@[j],
        decreases n - i,
    {
        if s.get_char(start + i) != p.get_char(i) {
            assert(s@.subrange(0, end as int).subrange(start as int, end as int)[i as int] != p@[i as int]);
            return false;
        }
        i += 1;
    }
    assert(s@.subrange(0, end as int).subrange(start as int, end as int) =~= p@);
    true
}

/// The character of a decimal digit.
pub open spec fn digit_char(d: nat) -> char {
    if d == 0 { '0' }
    else if d == 1 { '1' }
    else if d == 2 { '2' }
    else if d == 3 { '3' }
    else if d == 4 { '4' }
    else if d == 5 { '5' }
    else if d == 6 { '6' }
    else if d == 7 { '7' }
    else if d == 8 { '8' }
    else { '9' }
}

/// The value of a decimal digit character, if it is one.
pub open spec fn digit_value(c: char) -> Option<nat> {
    if c == '0' { Some(0) }
    else if c == '1' { Some(1) }
    else if c == '2' { Some(2) }
    else if c == '3' { Some(3) }
    else if c == '4' { Some(4) }
    else if c == '5' { Some(5) }
    else if c == '6' { Some(6) }
    else if c == '7' { Some(7) }
    else if c == '8' { Some(8) }
    else if c == '9' { Some(9) }
    else { None }
}

/// The decimal notation of `n`, without sign or leading zeros.
pub open spec fn decimal(n: nat) -> Seq<char>
    decreases n,
{
    if n < 10 {
        seq![digit_char(n)]
    } else {
        decimal(n / 10).push(digit_char(n % 10))
    }
}

/// Every character of `s` is a decimal digit.
pub open spec fn all_digits(s: Seq<char>) -> bool {
    forall|i: int| 0 <= i < s.len() ==> (#[trigger] digit_value(s[i])) is Some
}

/// The number that a string of decimal digits denotes.
pub open spec fn digits_value(s: Seq<char>) -> nat
    decreases s.len(),
{
    if s.len() == 0 {
        0
    } else {
        digits_value(s.drop_last()) * 10 + digit_value(s.last()).unwrap_or(0)
    }
}

fn digit_str(d: u32) -> (r: &'static str)
    requires
        d < 10,
    ensures
        r@ == seq![digit_char(d as nat)],
{
    proof {
        reveal_strlit("0");
        reveal_strlit("1");
        reveal_strlit("2");
        reveal_strlit("3");
        reveal_strlit("4");
        reveal_strlit("5");
        reveal_strlit("6");
        reveal_strlit("7");
        reveal_strlit("8");
        reveal_strlit("9");
    }
    let r = if d == 0 { "0" }
    else if d == 1 { "1" }
    else if d == 2 { "2" }
    else if d == 3 { "3" }
    else if d == 4 { "4" }
    else if d == 5 { "5" }
    else if d == 6 { "6" }
    else if d == 7 { "7" }
    else if d == 8 { "8" }
    else { "9" };
    assert(r@ =~= seq![digit_char(d as nat)]);
    r
}

/// Appends the decimal notation of `n` to `out`.
pub fn push_decimal(out: &mut String, n: u32)
    ensures
        final(out)@ == old(out)@ + decimal(n as nat),
    decreases n,
{
    if n >= 10 {
        push_decimal(out, n / 10);
    }
    out.append(digit_str(n % 10));
}

/// The decimal notation of `n`.
pub fn decimal_string(n: u32) -> (r: String)
    ensures
        r@ == decimal(n as nat),
{
    let mut r = String::new();
    push_decimal(&mut r, n);
    assert(r@ =~= decimal(n as nat));
    r
}

/// Unicode White_Space, as `str::trim` and `str::split_whitespace` use it.
pub open spec fn is_ws(c: char) -> bool {
    ('\u{9}' <= c && c <= '\u{d}') || c == ' ' || c == '\u{85}' || c == '\u{a0}' || c == '\u{1680}' || ('\u{2000}'
        <= c && c <= '\u{200a}') || c == '\u{2028}' || c == '\u{2029}' || c == '\u{202f}' || c == '\u{205f}' || c
        == '\u{3000}'
}

/// `s` without its trailing whitespace.
pub open spec fn trim_end(s: Seq<char>) -> Seq<char>
    decreases s.len(),
{
    if s.len() > 0 && is_ws(s.last()) {
        trim_end(s.drop_last())
    } else {
        s
    }
}

/// `s` without its leading whitespace.
pub open spec fn trim_start(s: Seq<char>) -> Seq<char>
    decreases s.len(),
{
    if s.len() > 0 && is_ws(s[0]) {
        trim_start(s.drop_first())
    } else {
        s
    }
}

/// `s` without leading or trailing whitespace.
pub open spec fn trim(s: Seq<char>) -> Seq<char> {
    trim_start(trim_end(s))
}

fn is_ws_char(c: char) -> (r: bool)
    ensures
        r == is_ws(c),
{
    ('\u{9}' <= c && c <= '\u{d}') || c == ' ' || c == '\u{85}' || c == '\u{a0}' || c == '\u{1680}' || ('\u{2000}'
        <= c && c <= '\u{200a}') || c == '\u{2028}' || c == '\u{2029}' || c == '\u{202f}' || c == '\u{205f}' || c
        == '\u{3000}'
}

/// `s` without leading or trailing whitespace.
pub fn trimmed(s: &str) -> (r: String)
    ensures
        r@ == trim(s@),
{
    let mut hi = s.unicode_len();
    assert(s@.subrange(0, hi as int) =~= s@);
    while hi > 0 && is_ws_char(s.get_char(hi - 1))
        invariant
            hi <= s@.len(),
            trim_end(s@.subrange(0, hi as int)) == trim_end(s@),
        decreases hi,
    {
        assert(s@.subrange(0, hi as int).drop_last() =~= s@.subrange(0, hi - 1));
        hi -= 1;
    }
    let ghost e = s@.subrange(0, hi as int);
    assert(trim_end(e) == e);
    let mut lo: usize = 0;
    while lo < hi && is_ws_char(s.get_char(lo))
        invariant
            lo <= hi <= s@.len(),
            e == s@.subrange(0, hi as int),
            trim_start(s@.subrange(lo as int, hi as int)) == trim_start(e),
        decreases hi - lo,
    {
        assert(s@.subrange(lo as int, hi as int).drop_first() =~= s@.subrange(lo + 1, hi as int));
        lo += 1;
    }
    assert(s@.subrange(0, hi as int) =~= e);
    assert(s@.subrange(0, 0) =~= s@.subrange(0, hi as int).subrange(0, 0));
    let r = String::from_str(s.substring_char(lo, hi));
    assert(trim_start(s@.subrange(lo as int, hi as int)) == s@.subrange(lo as int, hi as int));
    r
}

proof fn lemma_digits_value_prefix(s: Seq<char>, i: int, k: int)
    requires
        0 <= i <= k <= s.len(),
    ensures
        digits_value(s.subrange(0, i)) <= digits_value(s.subrange(0, k)),
    decreases k - i,
{
    if i < k {
        lemma_digits_value_prefix(s, i, k - 1);
        assert(s.subrange(0, k).drop_last() =~= s.subrange(0, k - 1));
    }
}

/// The number that `s` denotes in decimal, if `s` is a non-empty string of
/// digits whose value fits in an `i32`.
pub fn parse_i32(s: &str) -> (r: Option<i32>)
    ensures
        r is Some <==> (s@.len() > 0 && all_digits(s@) && digits_value(s@) <= i32::MAX),
        r is Some ==> r.unwrap() == digits_value(s@),
{
    let n = s.unicode_len();
    if n == 0 {
        return None;
    }
    let mut acc: i32 = 0;
    let mut i: usize = 0;
    while i < n
        invariant
            i <= n == s@.len(),
            forall|j: int| 0 <= j < i ==> (#[trigger] digit_value(s@[j])) is Some,
            acc == digits_value(s@.subrange(0, i as int)),
        decreases n - i,
    {
        let c = s.get_char(i);
        let d: i32 = if c == '0' { 0 }
        else if c == '1' { 1 }
        else if c == '2' { 2 }
        else if c == '3' { 3 }
        else if c == '4' { 4 }
        else if c == '5' { 5 }
        else if c == '6' { 6 }
        else if c == '7' { 7 }
        else if c == '8' { 8 }
        else if c == '9' { 9 }
        else { -1 };
        assert(s@.subrange(0, i + 1).drop_last() =~= s@.subrange(0, i as int));
        if d < 0 {
            assert(!all_digits(s@));
            return None;
        }
        if acc > (i32::MAX - d) / 10 {
            proof {
                if all_digits(s@) {
                    lemma_digits_value_prefix(s@, i + 1, n as int);
                    assert(s@.subrange(0, n as int) =~= s@);
                }
            }
            return None;
        }
        acc = acc * 10 + d;
        i += 1;
    }
    assert(s@.subrange(0, n as int) =~= s@);
    Some(acc)
}

/// Whether `a` and `b` hold the same characters.
pub fn same_text(a: &str, b: &str) -> (r: bool)
    ensures
        r == (a@ == b@),
{
    let n = a.unicode_len();
    if n != b.unicode_len() {
        return false;
    }
    let r = starts_with(a, b);
    proof {
        assert(a@ =~= a@.subrange(0, b@.len() as int));
        if a@ == b@ {
            assert(is_prefix(b@, a@));
        }
    }
    r
}

/// `s` with every occurrence of `pat` removed, scanning left to right as
/// `str::replace(pat, "")` does.
pub open spec fn remove_all(s: Seq<char>, pat: Seq<char>) -> Seq<char>
    decreases s.len(),
{
    if s.len() == 0 {
        s
    } else if pat.len() > 0 && is_prefix(pat, s) {
        remove_all(s.subrange(pat.len() as int, s.len() as int), pat)
    } else {
        seq![s[0]] + remove_all(s.drop_first(), pat)
    }
}

/// The part of `s` after its last `/`; all of `s` when it has none.
pub open spec fn basename(s: Seq<char>) -> Seq<char>
    decreases s.len(),
{
    if s.len() == 0 {
        s
    } else if s.last() == '/' {
        Seq::empty()
    } else {
        basename(s.drop_last()).push(s.last())
    }
}

/// Whether `s` has `p` at position `at`.
fn has_at(s: &str, at: usize, p: &str) -> (r: bool)
    requires
        at <= s@.len(),
    ensures
        r == is_prefix(p@, s@.subrange(at as int, s@.len() as int)),
{
    let n = p.unicode_len();
    let m = s.unicode_len();
    if n > m - at {
        return false;
    }
    let mut i: usize = 0;
    while i < n
        invariant
            i <= n <= m - at,
            n == p@.len(),
            m == s@.len(),
            at <= m,
            forall|j: int| 0 <= j < i ==> s@[at + j] == p@[j],
        decreases n - i,
    {
        if s.get_char(at + i) != p.get_char(i) {
            assert(s@.subrange(at as int, m as int).subrange(0, n as int)[i as int] != p@[i as int]);
            return false;
        }
        i += 1;
    }
    assert(s@.subrange(at as int, m as int).subrange(0, n as int) =~= p@);
    true
}

/// `s` with every occurrence of `pat` removed.
pub fn without_all(s: &str, pat: &str) -> (r: String)
    requires
        pat@.len() > 0,
    ensures
        r@ == remove_all(s@, pat@),
{
    let m = s.unicode_len();
    let n = pat.unicode_len();
    let mut out = String::new();
    let mut i: usize = 0;
    assert(s@.subrange(0, m as int) =~= s@);
    while i < m
        invariant
            i <= m == s@.len(),
            n == pat@.len() > 0,
            out@ + remove_all(s@.subrange(i as int, m as int), pat@) == remove_all(s@, pat@),
        decreases m - i,
    {
        let ghost rest = s@.subrange(i as int, m as int);
        if has_at(s, i, pat) {
            assert(rest.subrange(n as int, rest.len() as int) =~= s@.subrange(i + n, m as int));
            i += n;
        } else {
            let ghost out0 = out@;
            out.append(s.substring_char(i, i + 1));
            assert(rest.drop_first() =~= s@.subrange(i + 1, m as int));
            assert(s@.subrange(i as int, i + 1) =~= seq![rest[0]]);
            assert(remove_all(rest, pat@) == seq![rest[0]] + remove_all(rest.drop_first(), pat@));
            assert(out@ + remove_all(s@.subrange(i + 1, m as int), pat@) =~= out0 + remove_all(rest, pat@));
            i += 1;
        }
    }
    assert(remove_all(s@.subrange(m as int, m as int), pat@) =~= Seq::<char>::empty());
    assert(out@ =~= out@ + Seq::<char>::empty());
    out
}

/// The part of `s` after its last `/`.
pub fn after_last_slash(s: &str) -> (r: String)
    ensures
        r@ == basename(s@),
{
    let m = s.unicode_len();
    let mut k: usize = m;
    assert(s@.subrange(0, m as int) =~= s@);
    assert(s@.subrange(m as int, m as int) =~= Seq::<char>::empty());
    while k > 0 && s.get_char(k - 1) != '/'
        invariant
            k <= m == s@.len(),
            basename(s@) == basename(s@.subrange(0, k as int)) + s@.subrange(k as int, m as int),
        decreases k,
    {
        let ghost pre = s@.subrange(0, k as int);
        assert(pre.drop_last() =~= s@.subrange(0, k - 1));
        assert(s@.subrange(k - 1, m as int) =~= seq![pre.last()] + s@.subrange(k as int, m as int));
        assert(basename(pre) == basename(pre.drop_last()).push(pre.last()));
        assert(basename(pre) + s@.subrange(k as int, m as int) =~= basename(s@.subrange(0, k - 1)) + s@.subrange(k - 1, m as int));
        k -= 1;
    }
    assert(basename(s@.subrange(0, k as int)) =~= Seq::<char>::empty());
    String::from_str(s.substring_char(k, m))
}

/// The separator predicate: whitespace, or a colon.
pub open spec fn sep_of(ws: bool) -> spec_fn(char) -> bool {
    |c: char| if ws { is_ws(c) } else { c == ':' }
}

/// The pieces of `s` between the characters that `sep` selects, empty
/// pieces included, as `str::split` gives them.
pub open spec fn split_by(s: Seq<char>, sep: spec_fn(char) -> bool) -> Seq<Seq<char>>
    decreases s.len(),
{
    if s.len() == 0 {
        seq![Seq::empty()]
    } else {
        let w = split_by(s.drop_last(), sep);
        if sep(s.last()) {
            w.push(Seq::empty())
        } else {
            w.update(w.len() - 1, w.last().push(s.last()))
        }
    }
}

/// The views of a list of strings.
pub open spec fn views(v: Seq<String>) -> Seq<Seq<char>> {
    v.map_values(|s: String| s@)
}

/// The pieces of `s` between whitespace characters (when `ws`) or colons.
pub fn split_pieces(s: &str, ws: bool) -> (r: Vec<String>)
    ensures
        views(r@) == split_by(s@, sep_of(ws)),
{
    let m = s.unicode_len();
    let mut pieces: Vec<String> = Vec::new();
    let mut cur = String::new();
    let mut i: usize = 0;
    assert(s@.subrange(0, 0) =~= Seq::<char>::empty());
    assert(views(pieces@).push(cur@) =~= seq![Seq::<char>::empty()]);
    while i < m
        invariant
            i <= m == s@.len(),
            split_by(s@.subrange(0, i as int), sep_of(ws)) == views(pieces@).push(cur@),
        decreases m - i,
    {
        let c = s.get_char(i);
        let ghost pre = s@.subrange(0, i + 1);
        assert(pre.drop_last() =~= s@.subrange(0, i as int));
        assert(pre.last() == c);
        let is_sep = if ws { is_ws_char(c) } else { c == ':' };
        assert(is_sep == sep_of(ws)(c));
        if is_sep {
            let ghost before = pieces@;
            pieces.push(cur);
            cur = String::new();
            assert(views(pieces@) =~= views(before).push(split_by(s@.subrange(0, i as int), sep_of(ws)).last()));
            assert(split_by(pre, sep_of(ws)) =~= views(pieces@).push(cur@));
        } else {
            let ghost c0 = cur@;
            cur.append(s.substring_char(i, i + 1));
            assert(s@.subrange(i as int, i + 1) =~= seq![c]);
            assert(cur@ =~= c0.push(c));
            let ghost w = views(pieces@).push(c0);
            assert(split_by(pre, sep_of(ws)) == w.update(w.len() - 1, w.last().push(c)));
            assert(split_by(pre, sep_of(ws)) =~= views(pieces@).push(cur@));
        }
        i += 1;
    }
    assert(s@.subrange(0, m as int) =~= s@);
    let ghost before = pieces@;
    pieces.push(cur);
    assert(views(pieces@) =~= views(before).push(split_by(s@, sep_of(ws)).last()));
    assert(views(pieces@) =~= split_by(s@, sep_of(ws)));
    pieces
}

/// `p` occurs in `s`.
pub open spec fn occurs(p: Seq<char>, s: Seq<char>) -> bool {
    exists|k: int| 0 <= k <= s.len() && #[trigger] is_prefix(p, s.subrange(k, s.len() as int))
}

/// Whether `p` occurs in `s`.
pub fn contains_text(s: &str, p: &str) -> (r: bool)
    ensures
        r == occurs(p@, s@),
{
    let m = s.unicode_len();
    let mut k: usize = 0;
    loop
        invariant
            m == s@.len(),
            k <= m,
            forall|j: int| 0 <= j < k ==> !#[trigger] is_prefix(p@, s@.subrange(j, m as int)),
        decreases m - k,
    {
        if has_at(s, k, p) {
            return true;
        }
        if k == m {
            return false;
        }
        k += 1;
    }
}

/// `a` comes before `b` in the order of their characters' code points, a
/// proper prefix first; for strings this is the order of their UTF-8 bytes.
pub open spec fn text_lt(a: Seq<char>, b: Seq<char>) -> bool
    decreases a.len(),
{
    if a.len() == 0 {
        b.len() > 0
    } else if b.len() == 0 {
        false
    } else if a[0] != b[0] {
        (a[0] as int) < (b[0] as int)
    } else {
        text_lt(a.drop_first(), b.drop_first())
    }
}

/// No string comes before itself.
pub proof fn lemma_text_lt_irreflexive(a: Seq<char>)
    ensures
        !text_lt(a, a),
    decreases a.len(),
{
    if a.len() > 0 {
        lemma_text_lt_irreflexive(a.drop_first());
    }
}

/// The order is transitive.
pub proof fn lemma_text_lt_transitive(a: Seq<char>, b: Seq<char>, c: Seq<char>)
    requires
        text_lt(a, b),
        text_lt(b, c),
    ensures
        text_lt(a, c),
    decreases a.len(),
{
    if a.len() > 0 && b.len() > 0 && c.len() > 0 && a[0] == b[0] && b[0] == c[0] {
        lemma_text_lt_transitive(a.drop_first(), b.drop_first(), c.drop_first());
    }
}

/// Of two different strings, one comes before the other.
pub proof fn lemma_text_lt_total(a: Seq<char>, b: Seq<char>)
    requires
        a != b,
    ensures
        text_lt(a, b) || text_lt(b, a),
    decreases a.len(),
{
    if a.len() == 0 {
        assert(b.len() > 0) by {
            if b.len() == 0 {
                assert(a =~= b);
            }
        }
    } else if b.len() > 0 && a[0] == b[0] {
        if a.drop_first() == b.drop_first() {
            assert(a =~= seq![a[0]] + a.drop_first());
            assert(b =~= seq![b[0]] + b.drop_first());
        }
        lemma_text_lt_total(a.drop_first(), b.drop_first());
    } else if b.len() > 0 {
        assert((a[0] as int) != (b[0] as int));
    }
}

/// Whether `a` comes before `b`.
pub fn text_less(a: &str, b: &str) -> (r: bool)
    ensures
        r == text_lt(a@, b@),
{
    let n = a.unicode_len();
    let m = b.unicode_len();
    let mut i: usize = 0;
    assert(a@.subrange(0, n as int) =~= a@);
    assert(b@.subrange(0, m as int) =~= b@);
    loop
        invariant
            n == a@.len(),
            m == b@.len(),
            i <= n,
            i <= m,
            text_lt(a@.subrange(i as int, n as int), b@.subrange(i as int, m as int)) == text_lt(a@, b@),
        decreases n - i,
    {
        let ghost x = a@.subrange(i as int, n as int);
        let ghost y = b@.subrange(i as int, m as int);
        if i == n {
            return i < m;
        }
        if i == m {
            return false;
        }
        let c = a.get_char(i);
        let d = b.get_char(i);
        assert(x[0] == c && y[0] == d);
        if c != d {
            return (c as u32) < (d as u32);
        }
        assert(x.drop_first() =~= a@.subrange(i + 1, n as int));
        assert(y.drop_first() =~= b@.subrange(i + 1, m as int));
        i += 1;
    }
}

} // verus!
