//! Character-level helpers shared by the parsers: whitespace, case folding,
//! and conversion between strings and character vectors.

use vstd::prelude::*;

verus! {

/// Unicode `White_Space` property, the set `char::is_whitespace` tests.
pub open spec fn is_space(c: char) -> bool {
    let u = c as u32;
    ||| 0x09 <= u <= 0x0D
    ||| u == 0x20
    ||| u == 0x85
    ||| u == 0xA0
    ||| u == 0x1680
    ||| 0x2000 <= u <= 0x200A
    ||| u == 0x2028
    ||| u == 0x2029
    ||| u == 0x202F
    ||| u == 0x205F
    ||| u == 0x3000
}

/// Whether `c` is a Unicode whitespace character.
pub fn is_space_char(c: char) -> (r: bool)
    ensures
        r == is_space(c),
{
    let u = c as u32;
    (0x09 <= u && u <= 0x0D) || u == 0x20 || u == 0x85 || u == 0xA0 || u == 0x1680 || (0x2000
        <= u && u <= 0x200A) || u == 0x2028 || u == 0x2029 || u == 0x202F || u == 0x205F || u
        == 0x3000
}

/// The characters of `s`, in order.
pub fn chars_of(s: &str) -> (r: Vec<char>)
    ensures
        r@ == s@,
{
    let mut r: Vec<char> = Vec::new();
    for c in it: s.chars()
        invariant
            r@ == it.seq().take(it.index() as int),
            it.seq() == s@,
            
    {
        r.push(c);
    }
    r
}


/// Builds a `String` holding exactly the characters of `v`
/// (`FromIterator<char>` for `String`).
#[verifier::external_body]
pub(crate) fn string_of(v: &Vec<char>) -> (r: String)
    ensures
        r@ == v@,
{
    v.iter().collect()
}

/// What `str::to_lowercase` returns for a string with the given characters.
pub uninterp spec fn lowercase(s: Seq<char>) -> Seq<char>;

/// Calls `str::to_lowercase`. The result is the Unicode lowercase mapping of
/// `s`, named `lowercase`; stated is only that ASCII text maps character by
/// character to its ASCII lowercase.
#[verifier::external_body]
pub(crate) fn to_lowercase(s: &str) -> (r: String)
    ensures
        r@ == lowercase(s@),
        vstd::utf8::is_ascii_chars(s@) ==> r@ == s@.map_values(|c: char| ascii_lower(c)),
{
    s.to_lowercase()
}

/// The lowercase form of `s` as far as it is stated: ASCII text maps
/// character by character to its ASCII lowercase; other text is what
/// `str::to_lowercase` returns.
pub open spec fn lower(s: Seq<char>) -> Seq<char> {
    if vstd::utf8::is_ascii_chars(s) {
        s.map_values(|c: char| ascii_lower(c))
    } else {
        lowercase(s)
    }
}

/// What `char::to_lowercase` yields for one character (one to three characters).
pub uninterp spec fn char_lowercase(c: char) -> Seq<char>;

/// Calls `char::to_lowercase` and collects what it yields. The Unicode
/// mapping is named `char_lowercase`; stated is only that an ASCII character
/// maps to its one ASCII lowercase character.
#[verifier::external_body]
pub(crate) fn char_to_lowercase(c: char) -> (r: Vec<char>)
    ensures
        r@ == char_lowercase(c),
        '\0' <= c <= '\u{7f}' ==> r@ == seq![ascii_lower(c)],
{
    c.to_lowercase().collect()
}

/// The lowercase form of one character as far as it is stated: an ASCII
/// character maps to its one ASCII lowercase character; any other to what
/// `char::to_lowercase` yields.
pub open spec fn char_lower(c: char) -> Seq<char> {
    if '\0' <= c <= '\u{7f}' {
        seq![ascii_lower(c)]
    } else {
        char_lowercase(c)
    }
}

/// The ASCII digit for a value below ten.
pub open spec fn digit_char(d: int) -> char {
    (('0' as int) + d) as char
}

/// The decimal representation of `n`, without leading zeros ("0" for zero).
pub open spec fn decimal(n: nat) -> Seq<char>
    decreases n,
{
    if n < 10 {
        seq![digit_char(n as int)]
    } else {
        decimal(n / 10).push(digit_char((n % 10) as int))
    }
}

/// The decimal representation of `n` as characters.
pub fn decimal_chars(n: usize) -> (r: Vec<char>)
    ensures
        r@ == decimal(n as nat),
    decreases n,
{
    if n < 10 {
        let c = char_from_digit(n);
        let mut v: Vec<char> = Vec::new();
        v.push(c);
        v
    } else {
        let mut v = decimal_chars(n / 10);
        let c = char_from_digit(n % 10);
        v.push(c);
        v
    }
}

fn char_from_digit(d: usize) -> (c: char)
    requires
        d < 10,
    ensures
        c == digit_char(d as int),
{
    if d == 0 { '0' }
    else if d == 1 { '1' }
    else if d == 2 { '2' }
    else if d == 3 { '3' }
    else if d == 4 { '4' }
    else if d == 5 { '5' }
    else if d == 6 { '6' }
    else if d == 7 { '7' }
    else if d == 8 { '8' }
    else { '9' }
}

/// Whether two character vectors hold the same characters.
pub fn eq_chars(a: &Vec<char>, b: &Vec<char>) -> (r: bool)
    ensures
        r == (a@ == b@),
{
    if a.len() != b.len() {
        return false;
    }
    let mut i: usize = 0;
    while i < a.len()
        invariant
            0 <= i <= a.len(),
            a.len() == b.len(),
            forall|k: int| 0 <= k < i ==> a@[k] == b@[k],
        decreases a.len() - i,
    {
        if a[i] != b[i] {
            return false;
        }
        i = i + 1;
    }
    assert(a@ =~= b@);
    true
}

/// Whether two strings hold the same characters.
pub fn same_str(a: &str, b: &str) -> (r: bool)
    ensures
        r == (a@ == b@),
{
    let x = chars_of(a);
    let y = chars_of(b);
    eq_chars(&x, &y)
}

/// The characters of `v` from position `a` up to (not including) `b`.
pub fn subvec(v: &Vec<char>, a: usize, b: usize) -> (r: Vec<char>)
    requires
        a <= b <= v.len(),
    ensures
        r@ == v@.subrange(a as int, b as int),
{
    let mut r: Vec<char> = Vec::new();
    let mut i: usize = a;
    while i < b
        invariant
            a <= i <= b <= v.len(),
            r@ == v@.subrange(a as int, i as int),
        decreases b - i,
    {
        r.push(v[i]);
        i = i + 1;
        assert(r@ =~= v@.subrange(a as int, i as int));
    }
    r
}

/// Lexicographic order on character sequences (by code point), the order
/// `String`'s `Ord` gives.
pub open spec fn lex_lt(a: Seq<char>, b: Seq<char>) -> bool
    decreases a.len(),
{
    if b.len() == 0 {
        false
    } else if a.len() == 0 {
        true
    } else if a[0] != b[0] {
        (a[0] as u32) < (b[0] as u32)
    } else {
        lex_lt(a.drop_first(), b.drop_first())
    }
}

/// Sequences that agree before position `k`, where the first has the smaller
/// character, are in lexicographic order.
pub proof fn lemma_lex_lt_at(a: Seq<char>, b: Seq<char>, k: int)
    requires
        0 <= k < a.len(),
        k < b.len(),
        a.take(k) == b.take(k),
        (a[k] as u32) < (b[k] as u32),
    ensures
        lex_lt(a, b),
    decreases k,
{
    if k > 0 {
        assert(a.take(k)[0] == b.take(k)[0]);
        assert(a[0] == a.take(k)[0] && b[0] == b.take(k)[0]);
        assert(a.drop_first().take(k - 1) =~= a.take(k).drop_first());
        assert(b.drop_first().take(k - 1) =~= b.take(k).drop_first());
        lemma_lex_lt_at(a.drop_first(), b.drop_first(), k - 1);
        assert(a.drop_first()[k - 1] == a[k] && b.drop_first()[k - 1] == b[k]);
    } else {
        assert(a[0] != b[0]);
    }
}

/// The order is irreflexive.
pub proof fn lemma_lex_irreflexive(a: Seq<char>)
    ensures
        !lex_lt(a, a),
    decreases a.len(),
{
    if a.len() > 0 {
        lemma_lex_irreflexive(a.drop_first());
    }
}

/// The order is transitive.
pub proof fn lemma_lex_transitive(a: Seq<char>, b: Seq<char>, c: Seq<char>)
    requires
        lex_lt(a, b),
        lex_lt(b, c),
    ensures
        lex_lt(a, c),
    decreases a.len(),
{
    if a.len() > 0 && b.len() > 0 && c.len() > 0 {
        if a[0] == b[0] && b[0] == c[0] {
            lemma_lex_transitive(a.drop_first(), b.drop_first(), c.drop_first());
        }
    }
}

/// The order is total on distinct sequences.
pub proof fn lemma_lex_total(a: Seq<char>, b: Seq<char>)
    ensures
        a == b || lex_lt(a, b) || lex_lt(b, a),
    decreases a.len(),
{
    if a.len() > 0 && b.len() > 0 {
        if a[0] == b[0] {
            lemma_lex_total(a.drop_first(), b.drop_first());
            if a.drop_first() == b.drop_first() {
                assert(a =~= seq![a[0]] + a.drop_first());
                assert(b =~= seq![b[0]] + b.drop_first());
            }
        } else {
            assert((a[0] as u32) != (b[0] as u32)) by {
                vstd::utf8::char_u32_cast(a[0], a[0] as u32);
                vstd::utf8::char_u32_cast(b[0], b[0] as u32);
            }
        }
    } else if a.len() == 0 && b.len() == 0 {
        assert(a =~= b);
    }
}

/// Whether `a` sorts before `b`.
pub fn lex_less(a: &Vec<char>, b: &Vec<char>) -> (r: bool)
    ensures
        r == lex_lt(a@, b@),
{
    let mut i: usize = 0;
    assert(a@.skip(0) =~= a@);
    assert(b@.skip(0) =~= b@);
    while i < a.len() && i < b.len() && a[i] == b[i]
        invariant
            0 <= i <= a.len(),
            i <= b.len(),
            lex_lt(a@, b@) == lex_lt(a@.skip(i as int), b@.skip(i as int)),
        decreases a.len() - i,
    {
        assert(a@.skip(i as int).drop_first() =~= a@.skip(i + 1));
        assert(b@.skip(i as int).drop_first() =~= b@.skip(i + 1));
        assert(a@.skip(i as int)[0] == a@[i as int]);
        assert(b@.skip(i as int)[0] == b@[i as int]);
        i = i + 1;
    }
    assert(a@.skip(i as int).len() == a.len() - i);
    assert(b@.skip(i as int).len() == b.len() - i);
    if i < a.len() && i < b.len() {
        assert(a@.skip(i as int)[0] == a@[i as int]);
        assert(b@.skip(i as int)[0] == b@[i as int]);
    }
    if i == b.len() {
        false
    } else if i == a.len() {
        true
    } else {
        (a[i] as u32) < (b[i] as u32)
    }
}

/// The character sequences held by a sequence of strings.
pub open spec fn strs(v: Seq<String>) -> Seq<Seq<char>> {
    v.map_values(|x: String| x@)
}

/// Whether `s` is strictly increasing in lexicographic order.
pub open spec fn strictly_sorted(s: Seq<Seq<char>>) -> bool {
    forall|i: int, j: int| 0 <= i < j < s.len() ==> lex_lt(#[trigger] s[i], #[trigger] s[j])
}

/// Inserts `x` into a strictly sorted vector of strings unless it is
/// already there, keeping the vector strictly sorted.
pub fn insert_sorted(v: &mut Vec<String>, x: String)
    requires
        strictly_sorted(strs(old(v)@)),
    ensures
        strictly_sorted(strs(final(v)@)),
        strs(final(v)@).to_set() == strs(old(v)@).to_set().insert(x@),
{
    let xc = chars_of(x.as_str());
    let ghost s0 = strs(v@);
    let mut k: usize = 0;
    let mut found = false;
    while k < v.len() && !found
        invariant
            0 <= k <= v.len(),
            v@ == old(v)@,
            s0 == strs(v@),
            xc@ == x@,
            forall|i: int| 0 <= i < k ==> lex_lt(#[trigger] s0[i], x@),
            found ==> k < v.len() && !lex_lt(s0[k as int], x@),
        decreases v.len() - k + (if found { 0int } else { 1int }),
    {
        let vc = chars_of(v[k].as_str());
        if !lex_less(&vc, &xc) {
            found = true;
        } else {
            k = k + 1;
        }
    }
    if k < v.len() && v[k] == x {
        assert(s0[k as int] == x@);
        assert(s0.to_set().insert(x@) =~= s0.to_set()) by {
            assert(s0.contains(x@));
        }
        return;
    }
    proof {
        if k < s0.len() {
            assert(!lex_lt(s0[k as int], x@));
            assert(s0[k as int] != x@);
            lemma_lex_total(s0[k as int], x@);
        }
    }
    v.insert(k, x);
    let ghost s1 = strs(v@);
    assert(s1 =~= s0.insert(k as int, x@));
    assert forall|i: int, j: int| 0 <= i < j < s1.len() implies lex_lt(#[trigger] s1[i], #[trigger] s1[j]) by {
        if j < k {
            assert(s1[i] == s0[i] && s1[j] == s0[j]);
        } else if j == k {
            assert(s1[i] == s0[i]);
        } else if i < k {
            assert(s1[i] == s0[i] && s1[j] == s0[j - 1]);
            assert(lex_lt(s0[i], x@));
            if j - 1 == k as int {
                lemma_lex_transitive(s0[i], x@, s0[j - 1]);
            } else {
                assert(lex_lt(s0[k as int], s0[j - 1]));
                lemma_lex_transitive(x@, s0[k as int], s0[j - 1]);
                lemma_lex_transitive(s0[i], x@, s0[j - 1]);
            }
        } else if i == k {
            assert(s1[j] == s0[j - 1]);
            if j - 1 > k as int {
                assert(lex_lt(s0[k as int], s0[j - 1]));
                lemma_lex_transitive(x@, s0[k as int], s0[j - 1]);
            }
        } else {
            assert(s1[i] == s0[i - 1] && s1[j] == s0[j - 1]);
        }
    }
    assert(s1.to_set() =~= s0.to_set().insert(x@)) by {
        assert forall|y: Seq<char>| s1.to_set().contains(y) <==> s0.to_set().insert(x@).contains(y) by {
            if s1.contains(y) {
                let i = choose|i: int| 0 <= i < s1.len() && s1[i] == y;
                if i < k {
                    assert(s0[i] == y);
                } else if i > k {
                    assert(s0[i - 1] == y);
                }
            }
            if s0.contains(y) {
                let i = choose|i: int| 0 <= i < s0.len() && s0[i] == y;
                if i < k {
                    assert(s1[i] == y);
                } else {
                    assert(s1[i + 1] == y);
                }
            }
            if y == x@ {
                assert(s1[k as int] == y);
            }
        }
    }
}

/// Whether `c` is an ASCII digit.
pub open spec fn is_digit(c: char) -> bool {
    '0' <= c <= '9'
}

/// The value of a string of decimal digits.
pub open spec fn digits_value(d: Seq<char>) -> nat
    decreases d.len(),
{
    if d.len() == 0 {
        0
    } else {
        digits_value(d.drop_last()) * 10 + ((d.last() as u32) - ('0' as u32)) as nat
    }
}

/// What `str::parse::<i64>` yields: an optional sign, then one or more
/// ASCII digits, with the value in range.
pub open spec fn spec_parse_i64(s: Seq<char>) -> Option<i64> {
    let neg = s.len() > 0 && s[0] == '-';
    let d = unsigned_part(s);
    if d.len() == 0 || !all_digits(d) {
        None
    } else {
        let v: int = if neg {
            -(digits_value(d) as int)
        } else {
            digits_value(d) as int
        };
        if i64::MIN <= v <= i64::MAX {
            Some(v as i64)
        } else {
            None
        }
    }
}

/// The text after an optional leading sign.
pub open spec fn unsigned_part(s: Seq<char>) -> Seq<char> {
    if s.len() > 0 && (s[0] == '-' || s[0] == '+') {
        s.drop_first()
    } else {
        s
    }
}

/// Every character is an ASCII digit.
pub open spec fn all_digits(d: Seq<char>) -> bool {
    forall|i: int| 0 <= i < d.len() ==> is_digit(#[trigger] d[i])
}

/// Parses a decimal `i64` the way `str::parse::<i64>` does.
pub fn parse_i64(s: &str) -> (r: Option<i64>)
    ensures
        r == spec_parse_i64(s@),
{
    let cs = chars_of(s);
    let n = cs.len();
    let neg = n > 0 && cs[0] == '-';
    let start: usize = if n > 0 && (cs[0] == '-' || cs[0] == '+') {
        1
    } else {
        0
    };
    let ghost d = unsigned_part(s@);
    assert(d =~= cs@.skip(start as int));
    if start == n {
        return None;
    }
    let bound: u128 = 9223372036854775808;
    let mut v: u128 = 0;
    let mut over = false;
    let mut k: usize = start;
    while k < n
        invariant
            start <= k <= n,
            n == cs.len(),
            cs@ == s@,
            d == cs@.skip(start as int),
            d == unsigned_part(s@),
            neg == (s@.len() > 0 && s@[0] == '-'),
            bound == 9223372036854775808,
            forall|i: int| 0 <= i < k - start ==> is_digit(#[trigger] d[i]),
            over ==> digits_value(d.take(k - start)) > bound,
            !over ==> v == digits_value(d.take(k - start)) && v <= bound,
        decreases n - k,
    {
        let c = cs[k];
        if !('0' <= c && c <= '9') {
            proof {
                let w: int = k - start;
                assert(d[w] == c);
                assert(!is_digit(d[w]));
                assert(!all_digits(d));
            }
            return None;
        }
        let ghost t = d.take(k - start);
        assert(d.take(k + 1 - start) =~= t.push(c));
        assert(digits_value(t.push(c)) == digits_value(t) * 10 + ((c as u32) - ('0' as u32)) as nat) by {
            assert(t.push(c).drop_last() =~= t);
        }
        if !over {
            let nv = v * 10 + ((c as u32) - ('0' as u32)) as u128;
            if nv > bound {
                over = true;
            } else {
                v = nv;
            }
        }
        k = k + 1;
    }
    assert(d.take(n - start) =~= d);
    if over {
        return None;
    }
    if neg {
        Some((0 - (v as i128)) as i64)
    } else if v < bound {
        Some(v as i64)
    } else {
        None
    }
}

/// Appends all characters of `src` to `dst`.
pub fn push_all(dst: &mut Vec<char>, src: &Vec<char>)
    ensures
        final(dst)@ == old(dst)@ + src@,
{
    let mut i: usize = 0;
    while i < src.len()
        invariant
            0 <= i <= src.len(),
            dst@ == old(dst)@ + src@.take(i as int),
        decreases src.len() - i,
    {
        dst.push(src[i]);
        i = i + 1;
        assert(src@.take(i as int) == src@.take(i - 1).push(src@[i - 1]));
    }
    assert(src@.take(src.len() as int) == src@);
}

/// The pieces of `s` between occurrences of `sep`, as `str::split` yields
/// them: one more piece than there are separators, empty pieces included.
pub open spec fn split_on(s: Seq<char>, sep: char) -> Seq<Seq<char>>
    decreases s.len(),
{
    if s.len() == 0 {
        seq![Seq::<char>::empty()]
    } else {
        let r = split_on(s.drop_last(), sep);
        if s.last() == sep {
            r.push(Seq::<char>::empty())
        } else {
            r.update(r.len() - 1, r.last().push(s.last()))
        }
    }
}

/// Splitting always yields at least one piece.
pub proof fn lemma_split_nonempty(s: Seq<char>, sep: char)
    ensures
        split_on(s, sep).len() >= 1,
    decreases s.len(),
{
    if s.len() > 0 {
        lemma_split_nonempty(s.drop_last(), sep);
    }
}

/// Splitting text that holds no separator yields the text itself.
pub proof fn lemma_split_plain(k: Seq<char>, sep: char)
    requires
        !k.contains(sep),
    ensures
        split_on(k, sep) == seq![k],
    decreases k.len(),
{
    if k.len() > 0 {
        let init = k.drop_last();
        assert(!init.contains(sep)) by {
            if init.contains(sep) {
                let j = choose|j: int| 0 <= j < init.len() && init[j] == sep;
                assert(k[j] == sep);
            }
        }
        lemma_split_plain(init, sep);
        assert(k[k.len() - 1] != sep);
        assert(init.push(k.last()) =~= k);
        assert(seq![init].update(0, init.push(k.last())) =~= seq![k]);
    } else {
        assert(k =~= Seq::<char>::empty());
    }
}

/// Appending a separator and a piece without separators splits into one
/// more piece.
pub proof fn lemma_split_append(s: Seq<char>, k: Seq<char>, sep: char)
    requires
        !k.contains(sep),
    ensures
        split_on(s + seq![sep] + k, sep) == split_on(s, sep).push(k),
    decreases k.len(),
{
    let t = s + seq![sep] + k;
    if k.len() == 0 {
        assert(t =~= s.push(sep));
        assert(t.drop_last() =~= s);
        assert(k =~= Seq::<char>::empty());
    } else {
        let init = k.drop_last();
        assert(!init.contains(sep)) by {
            if init.contains(sep) {
                let j = choose|j: int| 0 <= j < init.len() && init[j] == sep;
                assert(k[j] == sep);
            }
        }
        lemma_split_append(s, init, sep);
        assert(t.drop_last() =~= s + seq![sep] + init);
        assert(t.last() == k[k.len() - 1]);
        assert(k[k.len() - 1] != sep);
        let r = split_on(s, sep).push(init);
        assert(init.push(k.last()) =~= k);
        assert(r.update(r.len() - 1, r.last().push(k.last())) =~= split_on(s, sep).push(k));
    }
}

/// Splits `s` at every `sep` (`str::split` with a character pattern).
pub fn split_char(s: &str, sep: char) -> (r: Vec<String>)
    ensures
        strs(r@) == split_on(s@, sep),
{
    let cs = chars_of(s);
    let mut parts: Vec<String> = Vec::new();
    let mut cur: Vec<char> = Vec::new();
    let mut i: usize = 0;
    while i < cs.len()
        invariant
            0 <= i <= cs.len(),
            cs@ == s@,
            strs(parts@).push(cur@) == split_on(cs@.take(i as int), sep),
        decreases cs.len() - i,
    {
        let c = cs[i];
        proof {
            assert(cs@.take(i + 1).drop_last() =~= cs@.take(i as int));
            assert(cs@.take(i + 1).last() == c);
            lemma_split_nonempty(cs@.take(i as int), sep);
        }
        if c == sep {
            let piece = string_of(&cur);
            let ghost before = strs(parts@);
            parts.push(piece);
            proof {
                assert(strs(parts@) =~= before.push(cur@));
            }
            cur = Vec::new();
            proof {
                assert(strs(parts@).push(cur@) =~= before.push(piece@).push(Seq::<char>::empty()));
            }
        } else {
            let ghost old_cur = cur@;
            cur.push(c);
            proof {
                let t = split_on(cs@.take(i as int), sep);
                assert(strs(parts@).push(cur@) =~= t.update(t.len() - 1, t.last().push(c)));
            }
        }
        i = i + 1;
    }
    assert(cs@.take(cs@.len() as int) =~= cs@);
    let last = string_of(&cur);
    let ghost before = strs(parts@);
    parts.push(last);
    proof {
        assert(strs(parts@) =~= before.push(cur@));
    }
    parts
}

/// ASCII lowercase of one character; other characters are unchanged.
pub open spec fn ascii_lower(c: char) -> char {
    if 'A' <= c <= 'Z' {
        ((c as u32) + 32) as char
    } else {
        c
    }
}

/// `b` equals the lowercase word `w` when ASCII letters are compared without case.
pub open spec fn word_ieq(b: Seq<char>, w: Seq<char>) -> bool {
    b.len() == w.len() && forall|i: int| 0 <= i < b.len() ==> ascii_lower(#[trigger] b[i]) == w[i]
}

/// `Digit+ | Digit+ '.' Digit* | Digit* '.' Digit+`.
pub open spec fn is_mantissa(m: Seq<char>) -> bool {
    ||| m.len() >= 1 && all_digits(m)
    ||| m.len() >= 2 && exists|p: int|
        0 <= p < m.len() && m[p] == '.' && all_digits(#[trigger] m.take(p)) && all_digits(m.skip(p + 1))
}

/// `Sign? Digit+`.
pub open spec fn is_exponent(x: Seq<char>) -> bool {
    unsigned_part(x).len() >= 1 && all_digits(unsigned_part(x))
}

/// The exponent marker.
pub open spec fn is_exp_mark(c: char) -> bool {
    c == 'e' || c == 'E'
}

/// `Mantissa ('e' Exponent)?`, the letter without regard to case.
pub open spec fn is_number(b: Seq<char>) -> bool {
    ||| is_mantissa(b)
    ||| exists|k: int|
        0 <= k < b.len() && is_exp_mark(b[k]) && is_mantissa(#[trigger] b.take(k)) && is_exponent(b.skip(k + 1))
}

/// The texts that `str::parse::<f64>` accepts, as its documentation gives
/// them: an optional sign, then `inf`, `infinity`, `nan` (in any case) or a
/// decimal number with an optional exponent.
pub open spec fn is_float_text(s: Seq<char>) -> bool {
    let b = unsigned_part(s);
    ||| word_ieq(b, seq!['i', 'n', 'f'])
    ||| word_ieq(b, seq!['i', 'n', 'f', 'i', 'n', 'i', 't', 'y'])
    ||| word_ieq(b, seq!['n', 'a', 'n'])
    ||| is_number(b)
}

/// Characters of a mantissa are digits or the point.
proof fn lemma_mantissa_chars(m: Seq<char>, i: int)
    requires
        is_mantissa(m),
        0 <= i < m.len(),
    ensures
        is_digit(m[i]) || m[i] == '.',
{
    if !(m.len() >= 1 && all_digits(m)) {
        let p = choose|p: int|
            0 <= p < m.len() && m[p] == '.' && all_digits(#[trigger] m.take(p)) && all_digits(m.skip(p + 1));
        if i < p {
            assert(m.take(p)[i] == m[i]);
        } else if i > p {
            assert(m.skip(p + 1)[i - p - 1] == m[i]);
        }
    }
}

/// Whether `cs[a..b]` is all ASCII digits.
fn digits_between(cs: &Vec<char>, a: usize, b: usize) -> (r: bool)
    requires
        a <= b <= cs.len(),
    ensures
        r == all_digits(cs@.subrange(a as int, b as int)),
{
    let mut i = a;
    while i < b
        invariant
            a <= i <= b <= cs.len(),
            forall|j: int| a <= j < i ==> is_digit(#[trigger] cs@[j]),
        decreases b - i,
    {
        if !('0' <= cs[i] && cs[i] <= '9') {
            assert(cs@.subrange(a as int, b as int)[i - a] == cs@[i as int]);
            return false;
        }
        i = i + 1;
    }
    assert forall|j: int| 0 <= j < b - a implies is_digit(#[trigger] cs@.subrange(a as int, b as int)[j]) by {
        assert(cs@.subrange(a as int, b as int)[j] == cs@[a + j]);
    }
    true
}

/// Whether `cs[a..b]` is a mantissa.
fn mantissa_between(cs: &Vec<char>, a: usize, b: usize) -> (r: bool)
    requires
        a <= b <= cs.len(),
    ensures
        r == is_mantissa(cs@.subrange(a as int, b as int)),
{
    let ghost m = cs@.subrange(a as int, b as int);
    let mut p = a;
    while p < b && cs[p] != '.'
        invariant
            a <= p <= b <= cs.len(),
            forall|j: int| a <= j < p ==> cs@[j] != '.',
        decreases b - p,
    {
        p = p + 1;
    }
    if p == b {
        let r = b > a && digits_between(cs, a, b);
        proof {
            assert forall|q: int| 0 <= q < m.len() implies m[q] != '.' by {
                assert(m[q] == cs@[a + q]);
            }
        }
        return r;
    }
    let ghost pp: int = p - a;
    assert(m[pp] == '.');
    assert(m.take(pp) =~= cs@.subrange(a as int, p as int));
    assert(m.skip(pp + 1) =~= cs@.subrange(p + 1, b as int));
    let r = b - a >= 2 && digits_between(cs, a, p) && digits_between(cs, p + 1, b);
    proof {
        assert(!all_digits(m));
        if !r && is_mantissa(m) {
            let q = choose|q: int|
                0 <= q < m.len() && m[q] == '.' && all_digits(#[trigger] m.take(q)) && all_digits(m.skip(q + 1));
            if q < pp {
                assert(m[q] == cs@[a + q]);
            } else if q > pp {
                assert(m.take(q)[pp] == '.');
            }
        }
    }
    r
}

/// Whether `cs[a..b]` equals the lowercase word `w` without regard to ASCII case.
fn word_between(cs: &Vec<char>, a: usize, b: usize, w: &Vec<char>) -> (r: bool)
    requires
        a <= b <= cs.len(),
        forall|i: int| 0 <= i < w.len() ==> 'a' <= #[trigger] w@[i] <= 'z',
    ensures
        r == word_ieq(cs@.subrange(a as int, b as int), w@),
{
    let ghost m = cs@.subrange(a as int, b as int);
    if b - a != w.len() {
        return false;
    }
    let mut i: usize = 0;
    while i < w.len()
        invariant
            a <= b <= cs.len(),
            b - a == w.len(),
            0 <= i <= w.len(),
            m == cs@.subrange(a as int, b as int),
            forall|j: int| 0 <= j < i ==> ascii_lower(#[trigger] m[j]) == w@[j],
        decreases w.len() - i,
    {
        let c = cs[a + i];
        assert(m[i as int] == c);
        let l = if 'A' <= c && c <= 'Z' {
            ((c as u32) + 32) as u8 as char
        } else {
            c
        };
        proof {
            if 'A' <= c <= 'Z' {
                assert(((c as u32) + 32) as u8 as char == ((c as u32) + 32) as char);
            }
        }
        if l != w[i] {
            return false;
        }
        i = i + 1;
    }
    true
}

/// Whether `s` is text that `str::parse::<f64>` accepts.
pub fn float_text(s: &str) -> (r: bool)
    ensures
        r == is_float_text(s@),
{
    let cs = chars_of(s);
    let n = cs.len();
    let a: usize = if n > 0 && (cs[0] == '-' || cs[0] == '+') {
        1
    } else {
        0
    };
    let ghost b = unsigned_part(s@);
    assert(b =~= cs@.subrange(a as int, n as int));
    let inf = vec!['i', 'n', 'f'];
    let infinity = vec!['i', 'n', 'f', 'i', 'n', 'i', 't', 'y'];
    let nan = vec!['n', 'a', 'n'];
    assert(inf@ =~= seq!['i', 'n', 'f']);
    assert(infinity@ =~= seq!['i', 'n', 'f', 'i', 'n', 'i', 't', 'y']);
    assert(nan@ =~= seq!['n', 'a', 'n']);
    if word_between(&cs, a, n, &inf) || word_between(&cs, a, n, &infinity) || word_between(&cs, a, n, &nan) {
        return true;
    }
    let mut k = a;
    while k < n && cs[k] != 'e' && cs[k] != 'E'
        invariant
            a <= k <= n == cs.len(),
            forall|j: int| a <= j < k ==> !is_exp_mark(#[trigger] cs@[j]),
        decreases n - k,
    {
        k = k + 1;
    }
    if k == n {
        let r = mantissa_between(&cs, a, n);
        proof {
            if !r {
                assert forall|q: int| 0 <= q < b.len() && is_exp_mark(b[q]) implies !(is_mantissa(
                    #[trigger] b.take(q),
                ) && is_exponent(b.skip(q + 1))) by {
                    assert(b[q] == cs@[a + q]);
                }
            }
        }
        return r;
    }
    let ghost kk: int = k - a;
    assert(b[kk] == cs@[k as int]);
    assert(b.take(kk) =~= cs@.subrange(a as int, k as int));
    let m_ok = mantissa_between(&cs, a, k);
    let x = subvec(&cs, k + 1, n);
    let xs = string_of(&x);
    assert(xs@ =~= b.skip(kk + 1));
    let e_ok = exponent_text(&xs);
    let r = m_ok && e_ok;
    proof {
        if is_mantissa(b) {
            lemma_mantissa_chars(b, kk);
        }
        if !r && is_number(b) {
            let q = choose|q: int|
                0 <= q < b.len() && is_exp_mark(b[q]) && is_mantissa(#[trigger] b.take(q)) && is_exponent(b.skip(q + 1));
            if q < kk {
                assert(b[q] == cs@[a + q]);
            } else if q > kk {
                assert(b.take(q)[kk] == b[kk]);
                lemma_mantissa_chars(b.take(q), kk);
            }
        }
    }
    r
}

/// Whether `x` is an optional sign followed by one or more digits.
fn exponent_text(x: &String) -> (r: bool)
    ensures
        r == is_exponent(x@),
{
    let cs = chars_of(x.as_str());
    let n = cs.len();
    let a: usize = if n > 0 && (cs[0] == '-' || cs[0] == '+') {
        1
    } else {
        0
    };
    assert(unsigned_part(x@) =~= cs@.subrange(a as int, n as int));
    n > a && digits_between(&cs, a, n)
}

/// `s` joined with `sep` between consecutive pieces.
pub open spec fn join_with(s: Seq<Seq<char>>, sep: Seq<char>) -> Seq<char>
    decreases s.len(),
{
    if s.len() == 0 {
        Seq::empty()
    } else if s.len() == 1 {
        s[0]
    } else {
        join_with(s.drop_last(), sep) + sep + s.last()
    }
}

/// Joins strings with a separator between consecutive ones.
pub fn join_strings(parts: &Vec<String>, sep: &str) -> (r: String)
    ensures
        r@ == join_with(strs(parts@), sep@),
{
    let mut out: Vec<char> = Vec::new();
    let sp = chars_of(sep);
    let mut i: usize = 0;
    while i < parts.len()
        invariant
            0 <= i <= parts.len(),
            sp@ == sep@,
            out@ == join_with(strs(parts@).take(i as int), sep@),
        decreases parts.len() - i,
    {
        assert(strs(parts@).take(i + 1).drop_last() =~= strs(parts@).take(i as int));
        if i > 0 {
            push_all(&mut out, &sp);
        }
        let c = chars_of(parts[i].as_str());
        push_all(&mut out, &c);
        i = i + 1;
    }
    assert(strs(parts@).take(parts.len() as int) =~= strs(parts@));
    string_of(&out)
}

/// `s` without its leading whitespace.
pub open spec fn trim_start(s: Seq<char>) -> Seq<char>
    decreases s.len(),
{
    if s.len() > 0 && is_space(s[0]) {
        trim_start(s.drop_first())
    } else {
        s
    }
}

/// `s` without its trailing whitespace.
pub open spec fn trim_end(s: Seq<char>) -> Seq<char>
    decreases s.len(),
{
    if s.len() > 0 && is_space(s.last()) {
        trim_end(s.drop_last())
    } else {
        s
    }
}

/// `s` without leading and trailing whitespace, as `str::trim` gives it.
pub open spec fn trimmed(s: Seq<char>) -> Seq<char> {
    trim_end(trim_start(s))
}

proof fn lemma_trim_start(s: Seq<char>, a: int)
    requires
        0 <= a <= s.len(),
        forall|j: int| 0 <= j < a ==> is_space(#[trigger] s[j]),
        a == s.len() || !is_space(s[a]),
    ensures
        trim_start(s) == s.skip(a),
    decreases a,
{
    if a > 0 {
        assert(s.drop_first().skip(a - 1) =~= s.skip(a));
        assert forall|j: int| 0 <= j < a - 1 implies is_space(#[trigger] s.drop_first()[j]) by {
            assert(s.drop_first()[j] == s[j + 1]);
        }
        lemma_trim_start(s.drop_first(), a - 1);
    } else {
        assert(s.skip(0) =~= s);
    }
}

proof fn lemma_trim_end(s: Seq<char>, b: int)
    requires
        0 <= b <= s.len(),
        forall|j: int| b <= j < s.len() ==> is_space(#[trigger] s[j]),
        b == 0 || !is_space(s[b - 1]),
    ensures
        trim_end(s) == s.take(b),
    decreases s.len() - b,
{
    if b < s.len() {
        assert(s.drop_last().take(b) =~= s.take(b));
        assert forall|j: int| b <= j < s.drop_last().len() implies is_space(#[trigger] s.drop_last()[j]) by {
            assert(s.drop_last()[j] == s[j]);
        }
        lemma_trim_end(s.drop_last(), b);
    } else {
        assert(s.take(b) =~= s);
    }
}

/// The characters of `cs` without leading and trailing whitespace.
pub fn trim_chars(cs: &Vec<char>) -> (r: Vec<char>)
    ensures
        r@ == trimmed(cs@),
{
    let n = cs.len();
    let mut a: usize = 0;
    while a < n && is_space_char(cs[a])
        invariant
            0 <= a <= n == cs.len(),
            forall|j: int| 0 <= j < a ==> is_space(#[trigger] cs@[j]),
        decreases n - a,
    {
        a = a + 1;
    }
    proof {
        lemma_trim_start(cs@, a as int);
    }
    let mut b: usize = n;
    while b > a && is_space_char(cs[b - 1])
        invariant
            a <= b <= n == cs.len(),
            forall|j: int| b <= j < n ==> is_space(#[trigger] cs@[j]),
        decreases b - a,
    {
        b = b - 1;
    }
    proof {
        let t = cs@.skip(a as int);
        assert forall|j: int| b - a <= j < t.len() implies is_space(#[trigger] t[j]) by {
            assert(t[j] == cs@[a + j]);
        }
        if b > a {
            assert(t[b - a - 1] == cs@[b - 1]);
        }
        lemma_trim_end(t, b - a);
        assert(t.take(b - a) =~= cs@.subrange(a as int, b as int));
    }
    subvec(cs, a, b)
}

/// `s` with leading and trailing whitespace removed (`str::trim`).
pub fn trim_str(s: &str) -> (r: String)
    ensures
        r@ == trimmed(s@),
{
    let cs = chars_of(s);
    let t = trim_chars(&cs);
    string_of(&t)
}

/// Whether `needle` occurs in `hay` starting at character position `p`.
pub open spec fn occurs_at(hay: Seq<char>, needle: Seq<char>, p: int) -> bool {
    &&& 0 <= p
    &&& p + needle.len() <= hay.len()
    &&& forall|k: int| 0 <= k < needle.len() ==> #[trigger] hay[p + k] == needle[k]
}

/// Whether `needle` occurs somewhere in `hay` (`str::contains`).
pub open spec fn mentions(hay: Seq<char>, needle: Seq<char>) -> bool {
    exists|p: int| occurs_at(hay, needle, p)
}

/// Whether `needle` occurs in `hay` at position `p`.
fn occurs_at_exec(hay: &Vec<char>, needle: &Vec<char>, p: usize) -> (r: bool)
    requires
        p <= hay.len(),
    ensures
        r == occurs_at(hay@, needle@, p as int),
{
    if needle.len() > hay.len() - p {
        return false;
    }
    let mut k: usize = 0;
    while k < needle.len()
        invariant
            0 <= k <= needle.len(),
            p + needle.len() <= hay.len(),
            forall|j: int| 0 <= j < k ==> #[trigger] hay@[p + j] == needle@[j],
        decreases needle.len() - k,
    {
        if hay[p + k] != needle[k] {
            return false;
        }
        k = k + 1;
    }
    true
}

/// Whether `hay` contains `needle` as a substring.
pub fn contains_str(hay: &str, needle: &str) -> (r: bool)
    ensures
        r == mentions(hay@, needle@),
{
    let h = chars_of(hay);
    let n = chars_of(needle);
    let mut p: usize = 0;
    while p < h.len()
        invariant
            0 <= p <= h.len(),
            h@ == hay@,
            n@ == needle@,
            forall|q: int| 0 <= q < p ==> !occurs_at(h@, n@, q),
        decreases h.len() - p,
    {
        if occurs_at_exec(&h, &n, p) {
            return true;
        }
        p = p + 1;
    }
    if occurs_at_exec(&h, &n, p) {
        return true;
    }
    assert forall|q: int| !occurs_at(h@, n@, q) by {
        if q > h@.len() {
            assert(q + n@.len() > h@.len());
        }
    }
    false
}

/// What occurs in `hay` occurs in `hay` with text put before and after it.
pub proof fn lemma_mentions_within(before: Seq<char>, hay: Seq<char>, after: Seq<char>, needle: Seq<char>)
    requires
        mentions(hay, needle),
    ensures
        mentions(before + hay + after, needle),
{
    let p = choose|p: int| occurs_at(hay, needle, p);
    let whole = before + hay + after;
    assert forall|k: int| 0 <= k < needle.len() implies #[trigger] whole[before.len() + p + k] == needle[k] by {
        assert(whole[before.len() + p + k] == hay[p + k]);
    }
    assert(occurs_at(whole, needle, before.len() + p));
}

/// Each piece of a joined sequence occurs in the joined text.
pub proof fn lemma_join_mentions(s: Seq<Seq<char>>, sep: Seq<char>, i: int)
    requires
        0 <= i < s.len(),
    ensures
        mentions(join_with(s, sep), s[i]),
    decreases s.len(),
{
    if s.len() == 1 {
        assert(occurs_at(join_with(s, sep), s[i], 0));
    } else if i == s.len() - 1 {
        let head = join_with(s.drop_last(), sep) + sep;
        assert(join_with(s, sep) == head + s.last());
        assert(occurs_at(head + s.last(), s.last(), head.len() as int));
        assert(mentions(join_with(s, sep), s[i]));
    } else {
        lemma_join_mentions(s.drop_last(), sep, i);
        assert(s.drop_last()[i] == s[i]);
        lemma_mentions_within(Seq::empty(), join_with(s.drop_last(), sep), sep + s.last(), s[i]);
        assert(Seq::<char>::empty() + join_with(s.drop_last(), sep) + (sep + s.last()) =~= join_with(s, sep));
    }
}

/// What occurs in a part of a text occurs in the text.
pub proof fn lemma_mentions_trans(hay: Seq<char>, part: Seq<char>, needle: Seq<char>)
    requires
        mentions(hay, part),
        mentions(part, needle),
    ensures
        mentions(hay, needle),
{
    let p = choose|p: int| occurs_at(hay, part, p);
    let q = choose|q: int| occurs_at(part, needle, q);
    assert forall|k: int| 0 <= k < needle.len() implies #[trigger] hay[p + q + k] == needle[k] by {
        assert(hay[p + (q + k)] == part[q + k]);
    }
    assert(occurs_at(hay, needle, p + q));
}

} // verus!
