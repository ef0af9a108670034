//! Text operations on `String`s and `&str`s, stated over their character
//! sequences.

use vstd::prelude::*;
use vstd::string::StrSliceExecFns;
use vstd::string::StringExecFns;

verus! {

/// The characters with the Unicode `White_Space` property, which is what
/// `char::is_whitespace` tests.
pub open spec fn is_white_space(c: char) -> bool {
    let u = c as u32;
    ||| 9 <= u <= 13
    ||| u == 32
    ||| u == 0x85
    ||| u == 0xA0
    ||| u == 0x1680
    ||| 0x2000 <= u <= 0x200A
    ||| u == 0x2028
    ||| u == 0x2029
    ||| u == 0x202F
    ||| u == 0x205F
    ||| u == 0x3000
}

/// Whether `c` is white space.
pub fn is_whitespace(c: char) -> (r: bool)
    ensures
        r == is_white_space(c),
{
    let u = c as u32;
    (9 <= u && u <= 13) || u == 32 || u == 0x85 || u == 0xA0 || u == 0x1680 || (0x2000 <= u && u
        <= 0x200A) || u == 0x2028 || u == 0x2029 || u == 0x202F || u == 0x205F || u == 0x3000
}

/// `s` without its leading white space.
pub open spec fn trim_start_spec(s: Seq<char>) -> Seq<char>
    decreases s.len(),
{
    if s.len() > 0 && is_white_space(s[0]) {
        trim_start_spec(s.drop_first())
    } else {
        s
    }
}

/// `s` without its trailing white space.
pub open spec fn trim_end_spec(s: Seq<char>) -> Seq<char>
    decreases s.len(),
{
    if s.len() > 0 && is_white_space(s.last()) {
        trim_end_spec(s.drop_last())
    } else {
        s
    }
}

/// `s` without leading and trailing white space, as `str::trim` gives it.
pub open spec fn trim_spec(s: Seq<char>) -> Seq<char> {
    trim_end_spec(trim_start_spec(s))
}

proof fn lemma_trim_start_skip(s: Seq<char>, i: int)
    requires
        0 <= i <= s.len(),
        forall|k: int| 0 <= k < i ==> is_white_space(#[trigger] s[k]),
    ensures
        trim_start_spec(s) == trim_start_spec(s.subrange(i, s.len() as int)),
    decreases i,
{
    if i > 0 {
        let t = s.drop_first();
        assert(forall|k: int| 0 <= k < i - 1 ==> is_white_space(#[trigger] t[k]) == is_white_space(s[k + 1]));
        lemma_trim_start_skip(t, i - 1);
        assert(t.subrange(i - 1, t.len() as int) =~= s.subrange(i, s.len() as int));
    } else {
        assert(s.subrange(0, s.len() as int) =~= s);
    }
}

proof fn lemma_trim_end_skip(s: Seq<char>, j: int)
    requires
        0 <= j <= s.len(),
        forall|k: int| j <= k < s.len() ==> is_white_space(#[trigger] s[k]),
    ensures
        trim_end_spec(s) == trim_end_spec(s.subrange(0, j)),
    decreases s.len() - j,
{
    if j < s.len() {
        let t = s.drop_last();
        lemma_trim_end_skip(t, j);
        assert(t.subrange(0, j) =~= s.subrange(0, j));
    } else {
        assert(s.subrange(0, j) =~= s);
    }
}

/// `s` with leading and trailing white space removed (`str::trim`).
pub fn trim(s: &str) -> (r: String)
    ensures
        r@ == trim_spec(s@),
{
    let n = s.unicode_len();
    let mut i: usize = 0;
    while i < n && is_whitespace(s.get_char(i))
        invariant
            n == s@.len(),
            i <= n,
            forall|k: int| 0 <= k < i ==> is_white_space(#[trigger] s@[k]),
        decreases n - i,
    {
        i = i + 1;
    }
    proof {
        lemma_trim_start_skip(s@, i as int);
    }
    let ghost rest = s@.subrange(i as int, n as int);
    assert(trim_start_spec(rest) == rest) by {
        if rest.len() > 0 {
            assert(rest[0] == s@[i as int]);
        }
    }
    let mut j: usize = n;
    while j > i && is_whitespace(s.get_char(j - 1))
        invariant
            n == s@.len(),
            i <= j <= n,
            forall|k: int| j <= k < n ==> is_white_space(#[trigger] s@[k]),
        decreases j,
    {
        j = j - 1;
    }
    proof {
        lemma_trim_end_skip(rest, (j - i) as int);
        assert(rest.subrange(0, (j - i) as int) =~= s@.subrange(i as int, j as int));
        let m = s@.subrange(i as int, j as int);
        if m.len() > 0 {
            assert(m.last() == s@[j - 1]);
        }
        assert(forall|k: int| (j - i) <= k < rest.len() ==> #[trigger] rest[k] == s@[k + i]);
    }
    s.substring_char(i, j).to_owned()
}

/// `p` is a prefix of `s`.
pub open spec fn has_prefix(s: Seq<char>, p: Seq<char>) -> bool {
    p.len() <= s.len() && s.subrange(0, p.len() as int) == p
}

/// Whether `s` starts with `p` (`str::starts_with`).
pub fn starts_with(s: &str, p: &str) -> (r: bool)
    ensures
        r == has_prefix(s@, p@),
{
    let n = s.unicode_len();
    let m = p.unicode_len();
    if m > n {
        return false;
    }
    let mut k: usize = 0;
    while k < m
        invariant
            n == s@.len(),
            m == p@.len(),
            m <= n,
            k <= m,
            forall|q: int| 0 <= q < k ==> s@[q] == p@[q],
        decreases m - k,
    {
        if s.get_char(k) != p.get_char(k) {
            assert(s@.subrange(0, m as int)[k as int] != p@[k as int]);
            return false;
        }
        k = k + 1;
    }
    assert(s@.subrange(0, m as int) =~= p@);
    true
}

/// `s` with every leading repetition of a nonempty `p` removed, as
/// `str::trim_start_matches` gives it for a string pattern.
pub open spec fn strip_prefixes(s: Seq<char>, p: Seq<char>) -> Seq<char>
    decreases s.len(),
{
    if p.len() > 0 && has_prefix(s, p) {
        strip_prefixes(s.subrange(p.len() as int, s.len() as int), p)
    } else {
        s
    }
}

/// `s` with every leading repetition of `p` removed (`str::trim_start_matches`).
pub fn trim_start_matches(s: &str, p: &str) -> (r: String)
    ensures
        r@ == strip_prefixes(s@, p@),
{
    let mut cur: String = s.to_owned();
    let m = p.unicode_len();
    if m == 0 {
        return cur;
    }
    while starts_with(cur.as_str(), p)
        invariant
            m == p@.len(),
            m > 0,
            strip_prefixes(cur@, p@) == strip_prefixes(s@, p@),
        decreases cur@.len(),
    {
        let n = cur.as_str().unicode_len();
        let next = cur.as_str().substring_char(m, n).to_owned();
        cur = next;
    }
    cur
}

/// `p` occurs in `s` at position `i`.
pub open spec fn occurs_at(s: Seq<char>, p: Seq<char>, i: int) -> bool {
    0 <= i && i + p.len() <= s.len() && s.subrange(i, i + p.len()) == p
}

/// `p` occurs somewhere in `s`.
pub open spec fn has_substring(s: Seq<char>, p: Seq<char>) -> bool {
    exists|i: int| occurs_at(s, p, i)
}

fn occurs_at_exec(s: &str, p: &str, i: usize, n: usize, m: usize) -> (r: bool)
    requires
        n == s@.len(),
        m == p@.len(),
        i + m <= n,
    ensures
        r == occurs_at(s@, p@, i as int),
{
    let mut k: usize = 0;
    while k < m
        invariant
            n == s@.len(),
            m == p@.len(),
            i + m <= n,
            k <= m,
            forall|q: int| 0 <= q < k ==> s@[i + q] == p@[q],
        decreases m - k,
    {
        if s.get_char(i + k) != p.get_char(k) {
            assert(s@.subrange(i as int, i + m)[k as int] != p@[k as int]);
            return false;
        }
        k = k + 1;
    }
    assert(s@.subrange(i as int, i + m) =~= p@);
    true
}

/// Whether `p` occurs in `s` (`str::contains` with a string pattern).
pub fn contains(s: &str, p: &str) -> (r: bool)
    ensures
        r == has_substring(s@, p@),
{
    let n = s.unicode_len();
    let m = p.unicode_len();
    if m > n {
        return false;
    }
    let last = n - m;
    let mut i: usize = 0;
    while i < last
        invariant
            n == s@.len(),
            m == p@.len(),
            last == n - m,
            i <= last,
            forall|q: int| 0 <= q < i ==> !occurs_at(s@, p@, q),
        decreases last - i,
    {
        if occurs_at_exec(s, p, i, n, m) {
            return true;
        }
        i = i + 1;
    }
    let found = occurs_at_exec(s, p, last, n, m);
    assert(found ==> occurs_at(s@, p@, last as int));
    assert(!found ==> forall|q: int| !occurs_at(s@, p@, q)) by {
        if !found {
            assert forall|q: int| !occurs_at(s@, p@, q) by {
                if 0 <= q < last {
                }
            }
        }
    }
    found
}

/// The decimal digit for `d < 10`.
pub open spec fn digit_char(d: nat) -> char {
    if d == 0 { '0' } else if d == 1 { '1' } else if d == 2 { '2' } else if d == 3 { '3' }
    else if d == 4 { '4' } else if d == 5 { '5' } else if d == 6 { '6' } else if d == 7 { '7' }
    else if d == 8 { '8' } else { '9' }
}

/// The decimal numeral of `n`, with no leading zeros, as `u64`'s `Display` writes it.
pub open spec fn decimal(n: nat) -> Seq<char>
    decreases n,
{
    if n < 10 {
        seq![digit_char(n)]
    } else {
        decimal(n / 10).push(digit_char(n % 10))
    }
}

fn digit_of(d: u64) -> (c: char)
    requires
        d < 10,
    ensures
        c == digit_char(d as nat),
{
    if d == 0 { '0' } else if d == 1 { '1' } else if d == 2 { '2' } else if d == 3 { '3' }
    else if d == 4 { '4' } else if d == 5 { '5' } else if d == 6 { '6' } else if d == 7 { '7' }
    else if d == 8 { '8' } else { '9' }
}

/// `s` with `c` added at its end (`String::push`).
#[verifier::external_body]
fn push_char(s: &mut String, c: char)
    ensures
        final(s)@ == old(s)@.push(c),
{
    s.push(c);
}

/// The decimal numeral of `n` (`u64::to_string`).
pub fn u64_to_string(n: u64) -> (r: String)
    ensures
        r@ == decimal(n as nat),
    decreases n,
{
    if n < 10 {
        let mut r = String::new();
        push_char(&mut r, digit_of(n));
        assert(r@ =~= seq![digit_char(n as nat)]);
        r
    } else {
        let mut r = u64_to_string(n / 10);
        push_char(&mut r, digit_of(n % 10));
        r
    }
}

/// The characters of an optional text.
pub open spec fn opt_text(o: Option<String>) -> Option<Seq<char>> {
    match o {
        Some(s) => Some(s@),
        None => None,
    }
}

/// The text `bool`'s `Display` writes.
pub open spec fn bool_text(b: bool) -> Seq<char> {
    if b {
        "true"@
    } else {
        "false"@
    }
}

/// The text of a `bool` (`bool::to_string`).
pub fn bool_to_string(b: bool) -> (r: String)
    ensures
        r@ == bool_text(b),
{
    if b {
        "true".to_owned()
    } else {
        "false".to_owned()
    }
}

/// `a` comes before `b` in the order of their characters' code points, a
/// proper prefix first. For valid UTF-8 this is the byte order in which
/// `String`'s `Ord` compares.
pub open spec fn text_lt(a: Seq<char>, b: Seq<char>) -> bool
    decreases a.len(),
{
    if a.len() == 0 {
        b.len() > 0
    } else if b.len() == 0 {
        false
    } else if a[0] != b[0] {
        a[0] < b[0]
    } else {
        text_lt(a.drop_first(), b.drop_first())
    }
}

/// `text_lt` is irreflexive, asymmetric and total.
pub proof fn lemma_text_lt_total(a: Seq<char>, b: Seq<char>)
    ensures
        !text_lt(a, a),
        text_lt(a, b) ==> !text_lt(b, a),
        a != b ==> text_lt(a, b) || text_lt(b, a),
    decreases a.len(),
{
    if a.len() > 0 && b.len() > 0 {
        lemma_text_lt_total(a.drop_first(), b.drop_first());
        lemma_text_lt_total(a.drop_first(), a.drop_first());
        if a != b && a[0] == b[0] && a.drop_first() == b.drop_first() {
            assert(a =~= seq![a[0]] + a.drop_first());
            assert(b =~= seq![b[0]] + b.drop_first());
        }
    } else if a.len() > 0 {
        lemma_text_lt_total(a.drop_first(), a.drop_first());
    } else if b.len() == 0 {
        assert(a =~= b);
    }
}

/// `text_lt` is transitive.
pub proof fn lemma_text_lt_trans(a: Seq<char>, b: Seq<char>, c: Seq<char>)
    requires
        text_lt(a, b),
        text_lt(b, c),
    ensures
        text_lt(a, c),
    decreases a.len(),
{
    if a.len() > 0 && b.len() > 0 && c.len() > 0 && a[0] == b[0] && b[0] == c[0] {
        lemma_text_lt_trans(a.drop_first(), b.drop_first(), c.drop_first());
    }
}

/// Whether `a` comes before `b` (`<` on `String`s).
pub fn text_less(a: &str, b: &str) -> (r: bool)
    ensures
        r == text_lt(a@, b@),
{
    let n = a.unicode_len();
    let m = b.unicode_len();
    let mut k: usize = 0;
    assert(a@.subrange(0, n as int) =~= a@);
    assert(b@.subrange(0, m as int) =~= b@);
    while k < n && k < m && a.get_char(k) == b.get_char(k)
        invariant
            n == a@.len(),
            m == b@.len(),
            k <= n,
            k <= m,
            text_lt(a@, b@) == text_lt(a@.subrange(k as int, n as int), b@.subrange(k as int, m as int)),
        decreases n - k,
    {
        proof {
            let x = a@.subrange(k as int, n as int);
            let y = b@.subrange(k as int, m as int);
            assert(x.drop_first() =~= a@.subrange(k + 1, n as int));
            assert(y.drop_first() =~= b@.subrange(k + 1, m as int));
        }
        k = k + 1;
    }
    if k == n {
        return k < m;
    }
    if k == m {
        return false;
    }
    let x = a.get_char(k);
    let y = b.get_char(k);
    proof {
        assert(a@.subrange(k as int, n as int)[0] == x);
        assert(b@.subrange(k as int, m as int)[0] == y);
    }
    x < y
}

/// `s` has no `'_'`.
pub open spec fn no_underscore(s: Seq<char>) -> bool {
    forall|i: int| 0 <= i < s.len() ==> #[trigger] s[i] != '_'
}

/// Two texts joined to what follows by a `'_'` that neither holds are split
/// back at that `'_'`.
pub proof fn lemma_split_at_first_underscore(x1: Seq<char>, y1: Seq<char>, x2: Seq<char>, y2: Seq<char>)
    requires
        no_underscore(x1),
        no_underscore(x2),
        x1 + "_"@ + y1 == x2 + "_"@ + y2,
    ensures
        x1 == x2,
        y1 == y2,
{
    reveal_strlit("_");
    let s1 = x1 + "_"@ + y1;
    let s2 = x2 + "_"@ + y2;
    if x1.len() < x2.len() {
        assert(s1[x1.len() as int] == '_');
        assert(s2[x1.len() as int] == x2[x1.len() as int]);
    } else if x2.len() < x1.len() {
        assert(s2[x2.len() as int] == '_');
        assert(s1[x2.len() as int] == x1[x2.len() as int]);
    } else {
        assert(x1 =~= s1.subrange(0, x1.len() as int));
        assert(x2 =~= s2.subrange(0, x2.len() as int));
        assert(y1 =~= s1.subrange(x1.len() as int + 1, s1.len() as int));
        assert(y2 =~= s2.subrange(x2.len() as int + 1, s2.len() as int));
    }
}

/// Two texts joined to what comes before by a `'_'` that neither holds are
/// split back at that `'_'`.
pub proof fn lemma_split_at_last_underscore(y1: Seq<char>, x1: Seq<char>, y2: Seq<char>, x2: Seq<char>)
    requires
        no_underscore(x1),
        no_underscore(x2),
        y1 + "_"@ + x1 == y2 + "_"@ + x2,
    ensures
        x1 == x2,
        y1 == y2,
{
    reveal_strlit("_");
    let s1 = y1 + "_"@ + x1;
    let s2 = y2 + "_"@ + x2;
    let n = s1.len();
    if x1.len() < x2.len() {
        let k = n - 1 - x1.len();
        assert(s1[k] == '_');
        assert(s2[k] == x2[k - y2.len() - 1]);
    } else if x2.len() < x1.len() {
        let k = n - 1 - x2.len();
        assert(s2[k] == '_');
        assert(s1[k] == x1[k - y1.len() - 1]);
    } else {
        assert(x1 =~= s1.subrange(y1.len() as int + 1, n as int));
        assert(x2 =~= s2.subrange(y2.len() as int + 1, n as int));
        assert(y1 =~= s1.subrange(0, y1.len() as int));
        assert(y2 =~= s2.subrange(0, y2.len() as int));
    }
}

/// A decimal numeral is not empty and has no `'_'`.
pub proof fn lemma_decimal_plain(n: nat)
    ensures
        decimal(n).len() >= 1,
        n >= 10 ==> decimal(n).len() >= 2,
        no_underscore(decimal(n)),
    decreases n,
{
    if n >= 10 {
        lemma_decimal_plain(n / 10);
    }
}

proof fn lemma_digit_char_injective(a: nat, b: nat)
    requires
        a < 10,
        b < 10,
        digit_char(a) == digit_char(b),
    ensures
        a == b,
{
}

/// Different numbers have different decimal numerals.
pub proof fn lemma_decimal_injective(n: nat, m: nat)
    requires
        decimal(n) == decimal(m),
    ensures
        n == m,
    decreases n,
{
    lemma_decimal_plain(n);
    lemma_decimal_plain(m);
    if n >= 10 && m >= 10 {
        let a = decimal(n / 10);
        let b = decimal(m / 10);
        assert(decimal(n) == a.push(digit_char(n % 10)));
        assert(decimal(m) == b.push(digit_char(m % 10)));
        assert(a =~= decimal(n).drop_last());
        assert(b =~= decimal(m).drop_last());
        assert(digit_char(n % 10) == decimal(n).last());
        assert(digit_char(m % 10) == decimal(m).last());
        lemma_digit_char_injective(n % 10, m % 10);
        lemma_decimal_injective(n / 10, m / 10);
    } else if n < 10 && m < 10 {
        assert(decimal(n)[0] == digit_char(n));
        assert(decimal(m)[0] == digit_char(m));
        lemma_digit_char_injective(n, m);
    }
}

/// The two texts of a `bool` differ and have no `'_'`.
pub proof fn lemma_bool_text_plain(a: bool, b: bool)
    ensures
        no_underscore(bool_text(a)),
        bool_text(a) == bool_text(b) ==> a == b,
{
    reveal_strlit("true");
    reveal_strlit("false");
    assert(bool_text(true).len() != bool_text(false).len());
}

/// The texts of `s` increase strictly in `text_lt` order.
pub open spec fn sorted_texts(s: Seq<Seq<char>>) -> bool {
    forall|a: int, b: int| 0 <= a < b < s.len() ==> text_lt(#[trigger] s[a], #[trigger] s[b])
}

/// Keeping the texts of a strictly increasing sequence that satisfy `p`
/// gives a strictly increasing sequence of exactly those texts.
pub proof fn lemma_sorted_texts_filter(s: Seq<Seq<char>>, p: spec_fn(Seq<char>) -> bool)
    requires
        sorted_texts(s),
    ensures
        sorted_texts(s.filter(p)),
        forall|e: Seq<char>| #[trigger] s.filter(p).contains(e) <==> (s.contains(e) && p(e)),
    decreases s.len(),
{
    reveal(Seq::filter);
    if s.len() > 0 {
        let rest = s.drop_last();
        let last = s.last();
        assert forall|a: int, b: int| 0 <= a < b < rest.len() implies text_lt(#[trigger] rest[a], #[trigger] rest[b]) by {
            assert(rest[a] == s[a] && rest[b] == s[b]);
        }
        lemma_sorted_texts_filter(rest, p);
        let fr = rest.filter(p);
        let f = s.filter(p);
        assert forall|e: Seq<char>| #[trigger] f.contains(e) <==> (s.contains(e) && p(e)) by {
            if s.contains(e) && p(e) {
                let k = choose|k: int| 0 <= k < s.len() && s[k] == e;
                if k == s.len() - 1 {
                    assert(f[f.len() - 1] == e);
                } else {
                    assert(rest[k] == e);
                    assert(fr.contains(e));
                    let j = choose|j: int| 0 <= j < fr.len() && fr[j] == e;
                    assert(f[j] == e);
                }
            }
            if f.contains(e) {
                let j = choose|j: int| 0 <= j < f.len() && f[j] == e;
                if j < fr.len() {
                    assert(fr[j] == e);
                    assert(fr.contains(e));
                    let k = choose|k: int| 0 <= k < rest.len() && rest[k] == e;
                    assert(s[k] == e);
                } else {
                    assert(e == last && p(last));
                    assert(s[s.len() - 1] == e);
                }
            }
        }
        if p(last) {
            assert forall|a: int, b: int| 0 <= a < b < f.len() implies text_lt(#[trigger] f[a], #[trigger] f[b]) by {
                if b < fr.len() {
                    assert(f[a] == fr[a] && f[b] == fr[b]);
                } else {
                    assert(f[a] == fr[a] && f[b] == last);
                    assert(fr.contains(fr[a]));
                    let k = choose|k: int| 0 <= k < rest.len() && rest[k] == fr[a];
                    assert(s[k] == fr[a] && s[s.len() - 1] == last);
                }
            }
        }
    }
}

/// Two strictly increasing sequences of the same texts are equal.
pub proof fn lemma_sorted_texts_equal(s: Seq<Seq<char>>, t: Seq<Seq<char>>)
    requires
        sorted_texts(s),
        sorted_texts(t),
        forall|x: Seq<char>| s.contains(x) <==> t.contains(x),
    ensures
        s == t,
    decreases s.len(),
{
    if s.len() == 0 {
        if t.len() > 0 {
            assert(t.contains(t[0]));
        }
        assert(s =~= t);
    } else if t.len() == 0 {
        assert(s.contains(s[0]));
    } else {
        assert(s.contains(s[0]));
        assert(t.contains(t[0]));
        let j = choose|j: int| 0 <= j < t.len() && t[j] == s[0];
        let i = choose|i: int| 0 <= i < s.len() && s[i] == t[0];
        if s[0] != t[0] {
            assert(j > 0 && i > 0);
            assert(text_lt(t[0], t[j]));
            assert(text_lt(s[0], s[i]));
            lemma_text_lt_total(s[0], t[0]);
        }
        let s1 = s.drop_first();
        let t1 = t.drop_first();
        assert forall|a: int, b: int| 0 <= a < b < s1.len() implies text_lt(#[trigger] s1[a], #[trigger] s1[b]) by {
            assert(s1[a] == s[a + 1] && s1[b] == s[b + 1]);
        }
        assert forall|a: int, b: int| 0 <= a < b < t1.len() implies text_lt(#[trigger] t1[a], #[trigger] t1[b]) by {
            assert(t1[a] == t[a + 1] && t1[b] == t[b + 1]);
        }
        assert forall|x: Seq<char>| s1.contains(x) <==> t1.contains(x) by {
            if s1.contains(x) {
                let k = choose|k: int| 0 <= k < s1.len() && s1[k] == x;
                assert(s[k + 1] == x);
                assert(s.contains(x));
                let m = choose|m: int| 0 <= m < t.len() && t[m] == x;
                if m == 0 {
                    assert(text_lt(s[0], s[k + 1]));
                    lemma_text_lt_total(x, x);
                }
                assert(t1[m - 1] == x);
            }
            if t1.contains(x) {
                let k = choose|k: int| 0 <= k < t1.len() && t1[k] == x;
                assert(t[k + 1] == x);
                assert(t.contains(x));
                let m = choose|m: int| 0 <= m < s.len() && s[m] == x;
                if m == 0 {
                    assert(text_lt(t[0], t[k + 1]));
                    lemma_text_lt_total(x, x);
                }
                assert(s1[m - 1] == x);
            }
        }
        lemma_sorted_texts_equal(s1, t1);
        assert(s =~= t) by {
            assert forall|k: int| 0 <= k < s.len() implies s[k] == t[k] by {
                if k > 0 {
                    assert(s[k] == s1[k - 1] && t[k] == t1[k - 1]);
                }
            }
        }
    }
}

/// The number a text of decimal digits stands for.
pub open spec fn numeral_value(s: Seq<char>) -> int
    decreases s.len(),
{
    if s.len() == 0 {
        0
    } else {
        numeral_value(s.drop_last()) * 10 + (s.last() as int - '0' as int)
    }
}

proof fn lemma_digit_value(k: nat)
    requires
        k < 10,
    ensures
        digit_char(k) as int - '0' as int == k,
        '0' <= digit_char(k) <= '9',
{
}

/// The decimal numeral of `n` is made of the digits `'0'` to `'9'`, stands
/// for `n`, and starts with `'0'` only where it is `"0"`.
pub proof fn law_decimal_reads_back(n: nat)
    ensures
        forall|i: int| 0 <= i < decimal(n).len() ==> '0' <= #[trigger] decimal(n)[i] <= '9',
        numeral_value(decimal(n)) == n,
        decimal(n)[0] == '0' ==> n == 0,
    decreases n,
{
    if n < 10 {
        lemma_digit_value(n);
        assert(decimal(n).drop_last() =~= Seq::<char>::empty());
        assert(decimal(n).last() == digit_char(n));
        assert(numeral_value(Seq::<char>::empty()) == 0);
        assert(numeral_value(decimal(n)) == numeral_value(decimal(n).drop_last()) * 10 + (digit_char(n) as int - '0' as int));
    } else {
        law_decimal_reads_back(n / 10);
        let d = decimal(n);
        let p = decimal(n / 10);
        assert(d == p.push(digit_char(n % 10)));
        assert(d.drop_last() =~= p);
        assert(d.last() == digit_char(n % 10));
        lemma_digit_value(n % 10);
        assert(numeral_value(d) == numeral_value(p) * 10 + (n % 10));
        assert((n / 10) * 10 + n % 10 == n) by (nonlinear_arith);
        assert(d[0] == p[0]) by {
            lemma_decimal_plain(n / 10);
        }
        assert forall|i: int| 0 <= i < d.len() implies '0' <= #[trigger] d[i] <= '9' by {
            if i < p.len() {
                assert(d[i] == p[i]);
            }
        }
    }
}

/// `a` and `b` agree on their first `k` characters, and there `a` ends
/// while `b` goes on, or `a` has the smaller character.
pub open spec fn differs_first_below(a: Seq<char>, b: Seq<char>, k: int) -> bool {
    &&& 0 <= k <= a.len()
    &&& k <= b.len()
    &&& a.take(k) == b.take(k)
    &&& ((k == a.len() && k < b.len()) || (k < a.len() && k < b.len() && a[k] < b[k]))
}

/// `text_lt` is the lexicographic order of characters: `a` comes first
/// exactly when, at the first position where the two differ, `a` has ended
/// or has the smaller character.
pub proof fn law_text_lt_lexicographic(a: Seq<char>, b: Seq<char>)
    ensures
        text_lt(a, b) <==> exists|k: int| #[trigger] differs_first_below(a, b, k),
    decreases a.len(),
{
    if a.len() == 0 {
        if b.len() > 0 {
            assert(a.take(0) =~= b.take(0));
            assert(differs_first_below(a, b, 0));
        }
    } else if b.len() == 0 {
        if exists|k: int| #[trigger] differs_first_below(a, b, k) {
            let k = choose|k: int| #[trigger] differs_first_below(a, b, k);
            assert(k == 0);
        }
    } else if a[0] != b[0] {
        if a[0] < b[0] {
            assert(a.take(0) =~= b.take(0));
            assert(differs_first_below(a, b, 0));
        }
        if exists|k: int| #[trigger] differs_first_below(a, b, k) {
            let k = choose|k: int| #[trigger] differs_first_below(a, b, k);
            if k > 0 {
                assert(a.take(k)[0] == b.take(k)[0]);
            }
        }
    } else {
        let a1 = a.drop_first();
        let b1 = b.drop_first();
        law_text_lt_lexicographic(a1, b1);
        if exists|k: int| #[trigger] differs_first_below(a1, b1, k) {
            let k = choose|k: int| #[trigger] differs_first_below(a1, b1, k);
            assert(a.take(k + 1) =~= seq![a[0]] + a1.take(k));
            assert(b.take(k + 1) =~= seq![b[0]] + b1.take(k));
            assert(differs_first_below(a, b, k + 1));
        }
        if exists|k: int| #[trigger] differs_first_below(a, b, k) {
            let k = choose|k: int| #[trigger] differs_first_below(a, b, k);
            if k == 0 {
                assert(a[0] == b[0]);
            } else {
                assert(a1.take(k - 1) =~= a.take(k).drop_first());
                assert(b1.take(k - 1) =~= b.take(k).drop_first());
                assert(differs_first_below(a1, b1, k - 1));
            }
        }
    }
}

} // verus!
