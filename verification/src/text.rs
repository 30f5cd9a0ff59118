use vstd::prelude::*;

verus! {

/// ASCII lowercasing of a single byte; bytes outside `A`..`Z` are unchanged.
pub open spec fn lower_byte(b: u8) -> u8 {
    if 65 <= b && b <= 90 {
        (b + 32) as u8
    } else {
        b
    }
}

/// ASCII lowercasing of a byte sequence.
pub open spec fn lower_seq(s: Seq<u8>) -> Seq<u8> {
    s.map_values(|b: u8| lower_byte(b))
}

fn lower_byte_exec(b: u8) -> (r: u8)
    ensures
        r == lower_byte(b),
{
    if 65 <= b && b <= 90 {
        b + 32
    } else {
        b
    }
}

/// The needle occurs at position `i` of the haystack, compared
/// case-insensitively (ASCII).
pub open spec fn ci_match_at(hay: Seq<u8>, needle: Seq<u8>, i: int) -> bool {
    &&& 0 <= i
    &&& i + needle.len() <= hay.len()
    &&& forall|j: int|
        0 <= j < needle.len() ==> lower_byte(hay[i + j]) == lower_byte(needle[j])
}

/// Position of the first case-insensitive occurrence of the needle at or
/// after position `i`, if any.
pub open spec fn ci_first_match_from(hay: Seq<u8>, needle: Seq<u8>, i: int) -> Option<int>
    decreases hay.len() - i,
{
    if i + needle.len() > hay.len() {
        None
    } else if ci_match_at(hay, needle, i) {
        Some(i)
    } else {
        ci_first_match_from(hay, needle, i + 1)
    }
}

/// Position of the first case-insensitive occurrence of the needle in the
/// haystack, if any.
pub open spec fn ci_find(hay: Seq<u8>, needle: Seq<u8>) -> Option<int> {
    ci_first_match_from(hay, needle, 0)
}

/// Case insensitivity of the matcher: lowering the needle or the haystack
/// beforehand changes nothing.
pub proof fn lemma_ci_first_match_case_insensitive(hay: Seq<u8>, needle: Seq<u8>, i: int)
    ensures
        ci_first_match_from(hay, lower_seq(needle), i) == ci_first_match_from(hay, needle, i),
        ci_first_match_from(lower_seq(hay), needle, i) == ci_first_match_from(hay, needle, i),
    decreases hay.len() - i,
{
    assert forall|b: u8| lower_byte(lower_byte(b)) == lower_byte(b) by {}
    assert(lower_seq(needle).len() == needle.len());
    assert(lower_seq(hay).len() == hay.len());
    assert forall|j: int| 0 <= j < needle.len() implies lower_byte(lower_seq(needle)[j])
        == lower_byte(needle[j]) by {
        assert(lower_seq(needle)[j] == lower_byte(needle[j]));
    }
    assert forall|j: int| 0 <= j < hay.len() implies lower_byte(lower_seq(hay)[j])
        == lower_byte(hay[j]) by {
        assert(lower_seq(hay)[j] == lower_byte(hay[j]));
    }
    assert(ci_match_at(hay, lower_seq(needle), i) == ci_match_at(hay, needle, i));
    assert(ci_match_at(lower_seq(hay), needle, i) == ci_match_at(hay, needle, i));
    if i + needle.len() > hay.len() {
    } else if ci_match_at(hay, needle, i) {
    } else {
        lemma_ci_first_match_case_insensitive(hay, needle, i + 1);
    }
}

/// Maps a machine-sized optional index to its mathematical counterpart.
pub open spec fn opt_index(r: Option<usize>) -> Option<int> {
    match r {
        Some(u) => Some(u as int),
        None => None,
    }
}

/// First case-insensitive occurrence of `needle` in `hay`, as a byte offset.
pub fn find_ci(hay: &Vec<u8>, needle: &Vec<u8>) -> (r: Option<usize>)
    requires
        needle@.len() > 0,
    ensures
        opt_index(r) == ci_find(hay@, needle@),
        r matches Some(i) ==> i < hay@.len() && i < usize::MAX,
{
    if needle.len() > hay.len() {
        return None;
    }
    let end: usize = hay.len() - needle.len();
    let mut i: usize = 0;
    loop
        invariant
            needle@.len() > 0,
            needle.len() <= hay.len(),
            end == hay.len() - needle.len(),
            i <= end + 1,
            ci_first_match_from(hay@, needle@, 0) == ci_first_match_from(hay@, needle@, i as int),
        decreases end + 1 - i,
    {
        if i > end {
            assert(i + needle@.len() > hay@.len());
            return None;
        }
        let mut j: usize = 0;
        let mut hit = true;
        while hit && j < needle.len()
            invariant
                i + needle.len() <= hay.len(),
                hay@.len() <= usize::MAX,
                j <= needle.len(),
                hit ==> forall|k: int|
                    0 <= k < j ==> lower_byte(hay@[i + k]) == lower_byte(needle@[k]),
                !hit ==> !ci_match_at(hay@, needle@, i as int),
            decreases needle.len() - j,
        {
            if lower_byte_exec(hay[i + j]) != lower_byte_exec(needle[j]) {
                assert(!ci_match_at(hay@, needle@, i as int));
                hit = false;
                j = needle.len();
            } else {
                j += 1;
            }
        }
        if hit {
            assert(ci_match_at(hay@, needle@, i as int));
            assert(ci_first_match_from(hay@, needle@, i as int) == Some(i as int));
            return Some(i);
        }
        assert(ci_first_match_from(hay@, needle@, i as int) == ci_first_match_from(
            hay@,
            needle@,
            i as int + 1,
        ));
        i += 1;
    }
}

/// Byte-for-byte equality of two vectors.
pub fn bytes_eq(a: &Vec<u8>, b: &Vec<u8>) -> (r: bool)
    ensures
        r == (a@ == b@),
{
    if a.len() != b.len() {
        return false;
    }
    let mut i: usize = 0;
    while i < a.len()
        invariant
            a@.len() == b@.len(),
            i <= a@.len(),
            forall|j: int| 0 <= j < i ==> a@[j] == b@[j],
        decreases a@.len() - i,
    {
        if a[i] != b[i] {
            return false;
        }
        i += 1;
    }
    assert(a@ =~= b@);
    true
}

/// `s` ends with `suffix`.
pub open spec fn ends_with(s: Seq<u8>, suffix: Seq<u8>) -> bool {
    suffix.len() <= s.len() && s.skip(s.len() - suffix.len()) == suffix
}

/// Whether the bytes of `s` end with the bytes of `suffix`.
pub fn ends_with_bytes(s: &Vec<u8>, suffix: &Vec<u8>) -> (r: bool)
    ensures
        r == ends_with(s@, suffix@),
{
    if suffix.len() > s.len() {
        return false;
    }
    let n: usize = s.len();
    let off: usize = n - suffix.len();
    let mut i: usize = 0;
    while i < suffix.len()
        invariant
            n == s@.len(),
            off == s@.len() - suffix@.len(),
            i <= suffix@.len(),
            forall|j: int| 0 <= j < i ==> s@[off + j] == suffix@[j],
        decreases suffix@.len() - i,
    {
        if s[off + i] != suffix[i] {
            assert(s@.skip(off as int)[i as int] != suffix@[i as int]);
            return false;
        }
        i += 1;
    }
    assert(s@.skip(off as int) =~= suffix@);
    true
}

/// ASCII whitespace: space, tab, line feed, vertical tab, form feed,
/// carriage return.
pub open spec fn is_space(b: u8) -> bool {
    b == 32 || (9 <= b && b <= 13)
}

/// `s` without its leading whitespace.
pub open spec fn trim_start(s: Seq<u8>) -> Seq<u8>
    decreases s.len(),
{
    if s.len() > 0 && is_space(s[0]) {
        trim_start(s.drop_first())
    } else {
        s
    }
}

/// `s` without its trailing whitespace.
pub open spec fn trim_end(s: Seq<u8>) -> Seq<u8>
    decreases s.len(),
{
    if s.len() > 0 && is_space(s.last()) {
        trim_end(s.drop_last())
    } else {
        s
    }
}

/// `s` without leading and trailing whitespace.
pub open spec fn trim_spec(s: Seq<u8>) -> Seq<u8> {
    trim_end(trim_start(s))
}

proof fn lemma_trim_start_at(s: Seq<u8>, a: int)
    requires
        0 <= a <= s.len(),
        forall|k: int| 0 <= k < a ==> is_space(s[k]),
        a < s.len() ==> !is_space(s[a]),
    ensures
        trim_start(s) == s.skip(a),
    decreases a,
{
    if a == 0 {
        assert(s.skip(0) =~= s);
    } else {
        assert(is_space(s[0]));
        lemma_trim_start_at(s.drop_first(), a - 1);
        assert(s.drop_first().skip(a - 1) =~= s.skip(a));
    }
}

proof fn lemma_trim_end_at(s: Seq<u8>, b: int)
    requires
        0 <= b <= s.len(),
        forall|k: int| b <= k < s.len() ==> is_space(s[k]),
        b > 0 ==> !is_space(s[b - 1]),
    ensures
        trim_end(s) == s.take(b),
    decreases s.len(),
{
    if b == s.len() {
        assert(s.take(b) =~= s);
    } else {
        assert(is_space(s.last()));
        lemma_trim_end_at(s.drop_last(), b);
        assert(s.drop_last().take(b) =~= s.take(b));
    }
}

/// Copy of the byte range `a..b` of `s`.
pub fn copy_range(s: &Vec<u8>, a: usize, b: usize) -> (r: Vec<u8>)
    requires
        a <= b <= s@.len(),
    ensures
        r@ == s@.subrange(a as int, b as int),
{
    let mut r: Vec<u8> = Vec::new();
    let mut k: usize = a;
    while k < b
        invariant
            a <= k <= b <= s@.len(),
            r@ =~= s@.subrange(a as int, k as int),
        decreases b - k,
    {
        r.push(s[k]);
        assert(s@.subrange(a as int, k + 1 as int) =~= s@.subrange(a as int, k as int).push(
            s@[k as int],
        ));
        k += 1;
    }
    assert(r@ =~= s@.subrange(a as int, b as int));
    r
}

/// `s` trimmed of leading and trailing ASCII whitespace.
pub fn trim_bytes(s: &Vec<u8>) -> (r: Vec<u8>)
    ensures
        r@ == trim_spec(s@),
{
    let n: usize = s.len();
    let mut a: usize = 0;
    while a < n && is_space_exec(s[a])
        invariant
            n == s@.len(),
            a <= n,
            forall|k: int| 0 <= k < a ==> is_space(s@[k]),
        decreases n - a,
    {
        a += 1;
    }
    let mut b: usize = n;
    while b > a && is_space_exec(s[b - 1])
        invariant
            n == s@.len(),
            a <= b <= n,
            forall|k: int| b <= k < n ==> is_space(s@[k]),
        decreases b,
    {
        b -= 1;
    }
    proof {
        lemma_trim_start_at(s@, a as int);
        lemma_trim_end_at(s@.skip(a as int), b - a);
        assert(s@.skip(a as int).take(b - a) =~= s@.subrange(a as int, b as int));
    }
    copy_range(s, a, b)
}

fn is_space_exec(b: u8) -> (r: bool)
    ensures
        r == is_space(b),
{
    b == 32 || (9 <= b && b <= 13)
}

/// A UTF-8 continuation byte.
pub open spec fn is_cont_byte(b: u8) -> bool {
    128 <= b && b < 192
}

/// The first `n` characters of UTF-8 text given as bytes: bytes are kept
/// until `n` character-start bytes have been passed.
pub open spec fn take_chars(s: Seq<u8>, n: int) -> Seq<u8>
    decreases s.len(),
{
    if s.len() == 0 {
        seq![]
    } else if !is_cont_byte(s[0]) && n <= 0 {
        seq![]
    } else {
        seq![s[0]] + take_chars(s.drop_first(), if is_cont_byte(s[0]) { n } else { n - 1 })
    }
}

/// The first `n` characters of `s`, which holds UTF-8 text.
pub fn truncate_chars(s: &Vec<u8>, n: usize) -> (r: Vec<u8>)
    ensures
        r@ == take_chars(s@, n as int),
{
    let len: usize = s.len();
    let mut r: Vec<u8> = Vec::new();
    let mut i: usize = 0;
    let mut rem: usize = n;
    proof {
        assert(s@.skip(0) =~= s@);
        assert(Seq::<u8>::empty() + take_chars(s@, n as int) =~= take_chars(s@, n as int));
    }
    while i < len && (is_cont_byte_exec(s[i]) || rem > 0)
        invariant
            len == s@.len(),
            i <= len,
            rem <= n,
            r@ == s@.take(i as int),
            take_chars(s@, n as int) == r@ + take_chars(s@.skip(i as int), rem as int),
        decreases len - i,
    {
        proof {
            assert(s@.skip(i as int).len() > 0);
            assert(s@.skip(i as int)[0] == s@[i as int]);
            assert(s@.skip(i as int).drop_first() =~= s@.skip(i + 1));
        }
        let b = s[i];
        r.push(b);
        if !is_cont_byte_exec(b) {
            rem = rem - 1;
        }
        proof {
            assert(s@.take(i + 1) =~= s@.take(i as int).push(s@[i as int]));
        }
        i += 1;
    }
    proof {
        assert(take_chars(s@.skip(i as int), rem as int) =~= seq![]);
        assert(r@ =~= r@ + take_chars(s@.skip(i as int), rem as int));
    }
    r
}

fn is_cont_byte_exec(b: u8) -> (r: bool)
    ensures
        r == is_cont_byte(b),
{
    128 <= b && b < 192
}

/// `l` without one trailing carriage return, if it has one.
pub open spec fn strip_cr(l: Seq<u8>) -> Seq<u8> {
    if l.len() > 0 && l.last() == 13 {
        l.drop_last()
    } else {
        l
    }
}

/// The lines of `s[start..]`, scanning from position `cur`: segments are
/// separated by line feeds, a carriage return before a line feed is dropped,
/// and a final empty segment does not count.
pub open spec fn split_rest(s: Seq<u8>, start: int, cur: int) -> Seq<Seq<u8>>
    decreases s.len() - cur,
{
    if !(0 <= start <= cur <= s.len()) {
        seq![]
    } else if cur == s.len() {
        if start == cur {
            seq![]
        } else {
            seq![s.subrange(start, cur)]
        }
    } else if s[cur] == 10 {
        seq![strip_cr(s.subrange(start, cur))] + split_rest(s, cur + 1, cur + 1)
    } else {
        split_rest(s, start, cur + 1)
    }
}

/// The lines of text `s`, as `str::lines` produces them.
pub open spec fn split_lines(s: Seq<u8>) -> Seq<Seq<u8>> {
    split_rest(s, 0, 0)
}

/// The views of a sequence of byte vectors.
pub open spec fn views_of(r: Seq<Vec<u8>>) -> Seq<Seq<u8>> {
    Seq::new(r.len(), |i: int| r[i]@)
}

/// Splits text into its lines.
pub fn split_lines_vec(text: &Vec<u8>) -> (r: Vec<Vec<u8>>)
    ensures
        views_of(r@) == split_lines(text@),
{
    let n: usize = text.len();
    let mut r: Vec<Vec<u8>> = Vec::new();
    let mut start: usize = 0;
    let mut cur: usize = 0;
    while cur < n
        invariant
            n == text@.len(),
            start <= cur <= n,
            split_lines(text@) == views_of(r@) + split_rest(text@, start as int, cur as int),
        decreases n - cur,
    {
        if text[cur] == 10 {
            let mut line = copy_range(text, start, cur);
            if line.len() > 0 && line[line.len() - 1] == 13 {
                line.pop();
            }
            proof {
                assert(line@ =~= strip_cr(text@.subrange(start as int, cur as int)));
            }
            r.push(line);
            proof {
                assert(views_of(r@) =~= views_of(r@.drop_last()) + seq![
                    strip_cr(text@.subrange(start as int, cur as int)),
                ]);
                assert(views_of(r@) + split_rest(text@, cur + 1, cur + 1) =~= (views_of(
                    r@.drop_last(),
                ) + split_rest(text@, start as int, cur as int)));
            }
            start = cur + 1;
        }
        cur += 1;
    }
    if start < n {
        let line = copy_range(text, start, n);
        r.push(line);
        proof {
            assert(views_of(r@) =~= views_of(r@.drop_last()) + split_rest(
                text@,
                start as int,
                n as int,
            ));
        }
    }
    assert(views_of(r@) =~= split_lines(text@));
    r
}

/// The glob argument with every leading `*` removed.
pub open spec fn strip_stars(g: Seq<u8>) -> Seq<u8>
    decreases g.len(),
{
    if g.len() > 0 && g[0] == 42 {
        strip_stars(g.drop_first())
    } else {
        g
    }
}

proof fn lemma_strip_stars_at(g: Seq<u8>, a: int)
    requires
        0 <= a <= g.len(),
        forall|k: int| 0 <= k < a ==> g[k] == 42,
        a < g.len() ==> g[a] != 42,
    ensures
        strip_stars(g) == g.skip(a),
    decreases a,
{
    if a == 0 {
        assert(g.skip(0) =~= g);
    } else {
        lemma_strip_stars_at(g.drop_first(), a - 1);
        assert(g.drop_first().skip(a - 1) =~= g.skip(a));
    }
}

/// Removes every leading `*` from the glob argument.
pub fn strip_stars_vec(g: &Vec<u8>) -> (r: Vec<u8>)
    ensures
        r@ == strip_stars(g@),
{
    let n: usize = g.len();
    let mut a: usize = 0;
    while a < n && g[a] == 42
        invariant
            n == g@.len(),
            a <= n,
            forall|k: int| 0 <= k < a ==> g@[k] == 42,
        decreases n - a,
    {
        a += 1;
    }
    proof {
        lemma_strip_stars_at(g@, a as int);
    }
    copy_range(g, a, n)
}

} // verus!
