//! Character-level text handling: whitespace trimming, prefix tests,
//! splitting on a separator and joining with one.
use vstd::prelude::*;

verus! {

/// The characters with the Unicode `White_Space` property, which is what
/// `char::is_whitespace` (and so `str::trim`) treats as whitespace.
pub open spec fn is_unicode_whitespace(c: char) -> bool {
    ||| ('\u{9}' <= c && c <= '\u{d}')
    ||| c == ' '
    ||| c == '\u{85}'
    ||| c == '\u{a0}'
    ||| c == '\u{1680}'
    ||| ('\u{2000}' <= c && c <= '\u{200a}')
    ||| c == '\u{2028}'
    ||| c == '\u{2029}'
    ||| c == '\u{202f}'
    ||| c == '\u{205f}'
    ||| c == '\u{3000}'
}

/// The characters that `str::trim_ascii` removes: space, tab, line feed,
/// form feed and carriage return.
pub open spec fn is_ascii_whitespace(c: char) -> bool {
    c == ' ' || c == '\t' || c == '\n' || c == '\u{c}' || c == '\r'
}

/// Whitespace in the Unicode sense (`ascii == false`) or in the ASCII sense.
pub open spec fn is_trimmed_char(c: char, ascii: bool) -> bool {
    if ascii {
        is_ascii_whitespace(c)
    } else {
        is_unicode_whitespace(c)
    }
}

/// `s` without its leading whitespace.
pub open spec fn trim_start_by(s: Seq<char>, ascii: bool) -> Seq<char>
    decreases s.len(),
{
    if s.len() > 0 && is_trimmed_char(s[0], ascii) {
        trim_start_by(s.drop_first(), ascii)
    } else {
        s
    }
}

/// `s` without its trailing whitespace.
pub open spec fn trim_end_by(s: Seq<char>, ascii: bool) -> Seq<char>
    decreases s.len(),
{
    if s.len() > 0 && is_trimmed_char(s.last(), ascii) {
        trim_end_by(s.drop_last(), ascii)
    } else {
        s
    }
}

/// `s` without leading and trailing whitespace.
pub open spec fn trim_by(s: Seq<char>, ascii: bool) -> Seq<char> {
    trim_end_by(trim_start_by(s, ascii), ascii)
}

/// What `str::trim` gives back.
pub open spec fn spec_trim(s: Seq<char>) -> Seq<char> {
    trim_by(s, false)
}

/// What `str::trim_ascii` gives back.
pub open spec fn spec_trim_ascii(s: Seq<char>) -> Seq<char> {
    trim_by(s, true)
}

/// `p` is a prefix of `s`.
pub open spec fn has_prefix(s: Seq<char>, p: Seq<char>) -> bool {
    p.len() <= s.len() && s.take(p.len() as int) == p
}

/// The pieces of `s` between occurrences of `sep`, as `str::split` with a
/// one-character pattern yields them: empty pieces included, and one piece
/// for the empty text.
pub open spec fn split_by(s: Seq<char>, sep: char) -> Seq<Seq<char>>
    decreases s.len(),
{
    if s.len() == 0 {
        seq![Seq::<char>::empty()]
    } else {
        let rest = split_by(s.drop_last(), sep);
        if s.last() == sep {
            rest.push(Seq::<char>::empty())
        } else {
            rest.update(rest.len() - 1, rest.last().push(s.last()))
        }
    }
}

/// The pieces of `parts` with `sep` between each two neighbours, as
/// `[String]::join` writes them.
pub open spec fn join_by(parts: Seq<Seq<char>>, sep: char) -> Seq<char>
    decreases parts.len(),
{
    if parts.len() == 0 {
        Seq::<char>::empty()
    } else if parts.len() == 1 {
        parts[0]
    } else {
        join_by(parts.drop_last(), sep) + seq![sep] + parts.last()
    }
}

/// The views of a sequence of strings.
pub open spec fn string_views(v: Seq<String>) -> Seq<Seq<char>> {
    v.map_values(|s: String| s@)
}

/// The views of a list with one more string.
pub proof fn lemma_string_views_push(v: Seq<String>, s: String)
    ensures
        string_views(v.push(s)) == string_views(v).push(s@),
{
    assert(string_views(v.push(s)) =~= string_views(v).push(s@));
}

/// Splitting never yields an empty list of pieces.
pub proof fn lemma_split_nonempty(s: Seq<char>, sep: char)
    ensures
        split_by(s, sep).len() >= 1,
    decreases s.len(),
{
    if s.len() > 0 {
        lemma_split_nonempty(s.drop_last(), sep);
    }
}

/// Whitespace removal from the front stops at the first character that is
/// not whitespace.
proof fn lemma_trim_start_skip(s: Seq<char>, ascii: bool, a: int)
    requires
        0 <= a <= s.len(),
        forall|i: int| 0 <= i < a ==> is_trimmed_char(#[trigger] s[i], ascii),
        a == s.len() || !is_trimmed_char(s[a], ascii),
    ensures
        trim_start_by(s, ascii) == s.skip(a),
    decreases a,
{
    if a == 0 {
        assert(s.skip(0) =~= s);
    } else {
        let t = s.drop_first();
        assert forall|i: int| 0 <= i < a - 1 implies is_trimmed_char(#[trigger] t[i], ascii) by {
            assert(t[i] == s[i + 1]);
        }
        lemma_trim_start_skip(t, ascii, a - 1);
        assert(t.skip(a - 1) =~= s.skip(a));
    }
}

/// Whitespace removal from the back stops after the last character that is
/// not whitespace.
proof fn lemma_trim_end_take(s: Seq<char>, ascii: bool, b: int)
    requires
        0 <= b <= s.len(),
        forall|j: int| b <= j < s.len() ==> is_trimmed_char(#[trigger] s[j], ascii),
        b == 0 || !is_trimmed_char(s[b - 1], ascii),
    ensures
        trim_end_by(s, ascii) == s.take(b),
    decreases s.len() - b,
{
    if b == s.len() {
        assert(s.take(b) =~= s);
    } else {
        let t = s.drop_last();
        assert forall|j: int| b <= j < t.len() implies is_trimmed_char(#[trigger] t[j], ascii) by {
            assert(t[j] == s[j]);
        }
        lemma_trim_end_take(t, ascii, b);
        assert(t.take(b) =~= s.take(b));
    }
}

/// Whether `c` is whitespace in the Unicode sense (`char::is_whitespace`).
pub fn is_whitespace(c: char) -> (res: bool)
    ensures
        res == is_unicode_whitespace(c),
{
    ('\u{9}' <= c && c <= '\u{d}') || c == ' ' || c == '\u{85}' || c == '\u{a0}' || c == '\u{1680}'
        || ('\u{2000}' <= c && c <= '\u{200a}') || c == '\u{2028}' || c == '\u{2029}' || c
        == '\u{202f}' || c == '\u{205f}' || c == '\u{3000}'
}

/// Whether `c` is whitespace in the ASCII sense (`u8::is_ascii_whitespace`).
pub fn is_ascii_space(c: char) -> (res: bool)
    ensures
        res == is_ascii_whitespace(c),
{
    c == ' ' || c == '\t' || c == '\n' || c == '\u{c}' || c == '\r'
}

fn is_trimmed(c: char, ascii: bool) -> (res: bool)
    ensures
        res == is_trimmed_char(c, ascii),
{
    if ascii {
        is_ascii_space(c)
    } else {
        is_whitespace(c)
    }
}

/// The characters of `s`, in order.
pub fn chars_of(s: &str) -> (res: Vec<char>)
    ensures
        res@ == s@,
{
    let mut res: Vec<char> = Vec::new();
    for c in it: s.chars()
        invariant
            res@ == it.seq().take(it.index() as int),
            it.seq() == s@,
    {
        res.push(c);
    }
    res
}

/// An owned copy of the characters `from..to` of `s`.
pub fn substring(s: &str, from: usize, to: usize) -> (res: String)
    requires
        from <= to <= s@.len(),
    ensures
        res@ == s@.subrange(from as int, to as int),
{
    s.substring_char(from, to).to_owned()
}

fn trim_with(s: &str, ascii: bool) -> (res: String)
    ensures
        res@ == trim_by(s@, ascii),
{
    let cs = chars_of(s);
    let n = cs.len();
    let mut a: usize = 0;
    while a < n && is_trimmed(cs[a], ascii)
        invariant
            cs@ == s@,
            n == cs@.len(),
            a <= n,
            forall|i: int| 0 <= i < a ==> is_trimmed_char(#[trigger] s@[i], ascii),
        decreases n - a,
    {
        a = a + 1;
    }
    proof {
        lemma_trim_start_skip(s@, ascii, a as int);
    }
    let mut b: usize = n;
    while b > a && is_trimmed(cs[b - 1], ascii)
        invariant
            cs@ == s@,
            n == cs@.len(),
            a <= b <= n,
            forall|j: int| b <= j < n ==> is_trimmed_char(#[trigger] s@[j], ascii),
        decreases b - a,
    {
        b = b - 1;
    }
    proof {
        let t = s@.skip(a as int);
        assert forall|j: int| b - a <= j < t.len() implies is_trimmed_char(#[trigger] t[j], ascii) by {
            assert(t[j] == s@[j + a]);
        }
        if b > a {
            assert(t[b - a - 1] == s@[b - 1]);
        }
        lemma_trim_end_take(t, ascii, b - a);
        assert(t.take(b - a) =~= s@.subrange(a as int, b as int));
    }
    substring(s, a, b)
}

/// `s` without leading and trailing Unicode whitespace (`str::trim`).
pub fn trim(s: &str) -> (res: String)
    ensures
        res@ == spec_trim(s@),
{
    trim_with(s, false)
}

/// `s` without leading and trailing ASCII whitespace (`str::trim_ascii`).
pub fn trim_ascii(s: &str) -> (res: String)
    ensures
        res@ == spec_trim_ascii(s@),
{
    trim_with(s, true)
}

/// Whether the characters `p` begin the characters `s`.
pub fn starts_with(s: &str, p: &str) -> (res: bool)
    ensures
        res == has_prefix(s@, p@),
{
    let cs = chars_of(s);
    let ps = chars_of(p);
    if ps.len() > cs.len() {
        return false;
    }
    let mut i: usize = 0;
    while i < ps.len()
        invariant
            cs@ == s@,
            ps@ == p@,
            ps@.len() <= cs@.len(),
            i <= ps@.len(),
            forall|k: int| 0 <= k < i ==> cs@[k] == ps@[k],
        decreases ps@.len() - i,
    {
        if cs[i] != ps[i] {
            assert(s@.take(p@.len() as int)[i as int] != p@[i as int]);
            return false;
        }
        i = i + 1;
    }
    assert(s@.take(p@.len() as int) =~= p@);
    true
}

/// Whether `s` holds no character.
pub fn is_empty_text(s: &str) -> (res: bool)
    ensures
        res == (s@.len() == 0),
{
    s.is_empty()
}

/// The pieces of `s` between occurrences of `sep` (`str::split` with a
/// one-character pattern, collected).
pub fn split_by_char(s: &str, sep: char) -> (res: Vec<String>)
    ensures
        string_views(res@) == split_by(s@, sep),
{
    let cs = chars_of(s);
    let n = cs.len();
    let mut parts: Vec<String> = Vec::new();
    let mut start: usize = 0;
    proof {
        assert(s@.take(0) =~= Seq::<char>::empty());
        assert(s@.subrange(0, 0) =~= Seq::<char>::empty());
        assert(string_views(parts@) =~= Seq::<Seq<char>>::empty());
        assert(string_views(parts@).push(s@.subrange(0, 0)) =~= seq![Seq::<char>::empty()]);
    }
    for i in 0..n
        invariant
            cs@ == s@,
            n == s@.len(),
            start <= i,
            string_views(parts@).push(s@.subrange(start as int, i as int)) == split_by(
                s@.take(i as int),
                sep,
            ),
    {
        let ghost before = split_by(s@.take(i as int), sep);
        proof {
            lemma_split_nonempty(s@.take(i as int), sep);
            assert(s@.take(i + 1).drop_last() =~= s@.take(i as int));
            assert(s@.take(i + 1).last() == s@[i as int]);
        }
        if cs[i] == sep {
            let piece = substring(s, start, i);
            parts.push(piece);
            start = i + 1;
            proof {
                assert(string_views(parts@) =~= before);
                assert(s@.subrange(start as int, (i + 1) as int) =~= Seq::<char>::empty());
            }
        } else {
            proof {
                assert(s@.subrange(start as int, (i + 1) as int) =~= s@.subrange(
                    start as int,
                    i as int,
                ).push(s@[i as int]));
                assert(string_views(parts@).push(s@.subrange(start as int, (i + 1) as int))
                    =~= before.update(before.len() - 1, before.last().push(s@[i as int])));
            }
        }
    }
    let last = substring(s, start, n);
    parts.push(last);
    proof {
        assert(s@.take(n as int) =~= s@);
        assert(string_views(parts@) =~= split_by(s@, sep));
    }
    parts
}

/// The strings `parts[from..]` with `sep` between each two neighbours
/// (`[String]::join` over that range).
pub fn join_from(parts: &Vec<String>, from: usize, sep: &str) -> (res: String)
    requires
        from <= parts@.len(),
        sep@.len() == 1,
    ensures
        res@ == join_by(string_views(parts@).skip(from as int), sep@[0]),
{
    let ghost views = string_views(parts@);
    let mut res = String::new();
    let mut k: usize = from;
    while k < parts.len()
        invariant
            views == string_views(parts@),
            from <= k <= parts@.len(),
            sep@.len() == 1,
            res@ == join_by(views.subrange(from as int, k as int), sep@[0]),
        decreases parts@.len() - k,
    {
        let ghost prev = views.subrange(from as int, k as int);
        if k > from {
            res.append(sep);
        }
        res.append(parts[k].as_str());
        proof {
            let next = views.subrange(from as int, (k + 1) as int);
            assert(next.drop_last() =~= prev);
            assert(next.last() == parts@[k as int]@);
            assert(sep@ =~= seq![sep@[0]]);
            if k == from {
                assert(res@ =~= next[0]);
            } else {
                assert(res@ =~= join_by(prev, sep@[0]) + seq![sep@[0]] + next.last());
            }
        }
        k = k + 1;
    }
    proof {
        assert(views.subrange(from as int, parts@.len() as int) =~= views.skip(from as int));
    }
    res
}

} // verus!

verus! {

/// Removing trailing whitespace keeps a prefix.
proof fn lemma_trim_end_prefix(s: Seq<char>, ascii: bool)
    ensures
        trim_end_by(s, ascii).len() <= s.len(),
        forall|i: int|
            0 <= i < trim_end_by(s, ascii).len() ==> #[trigger] trim_end_by(s, ascii)[i] == s[i],
    decreases s.len(),
{
    if s.len() > 0 && is_trimmed_char(s.last(), ascii) {
        lemma_trim_end_prefix(s.drop_last(), ascii);
    }
}

/// What is left after removing leading whitespace does not begin with
/// whitespace.
proof fn lemma_trim_start_first(s: Seq<char>, ascii: bool)
    ensures
        trim_start_by(s, ascii).len() == 0 || !is_trimmed_char(trim_start_by(s, ascii)[0], ascii),
    decreases s.len(),
{
    if s.len() > 0 && is_trimmed_char(s[0], ascii) {
        lemma_trim_start_first(s.drop_first(), ascii);
    }
}

/// What is left after removing trailing whitespace does not end with
/// whitespace.
proof fn lemma_trim_end_last(s: Seq<char>, ascii: bool)
    ensures
        trim_end_by(s, ascii).len() == 0 || !is_trimmed_char(trim_end_by(s, ascii).last(), ascii),
    decreases s.len(),
{
    if s.len() > 0 && is_trimmed_char(s.last(), ascii) {
        lemma_trim_end_last(s.drop_last(), ascii);
    }
}

/// A trimmed text neither begins nor ends with whitespace, and trimming it
/// again changes nothing.
pub proof fn law_trim_idempotent(s: Seq<char>, ascii: bool)
    ensures
        trim_by(s, ascii).len() > 0 ==> !is_trimmed_char(trim_by(s, ascii)[0], ascii)
            && !is_trimmed_char(trim_by(s, ascii).last(), ascii),
        trim_by(trim_by(s, ascii), ascii) == trim_by(s, ascii),
{
    let a = trim_start_by(s, ascii);
    let t = trim_end_by(a, ascii);
    lemma_trim_start_first(s, ascii);
    lemma_trim_end_prefix(a, ascii);
    lemma_trim_end_last(a, ascii);
    if t.len() > 0 {
        assert(t[0] == a[0]);
    }
    assert(trim_start_by(t, ascii) == t);
    assert(trim_end_by(t, ascii) == t);
}

/// Appending a character to the last piece appends it to the joined text.
proof fn lemma_join_extend_last(parts: Seq<Seq<char>>, sep: char, c: char)
    requires
        parts.len() >= 1,
    ensures
        join_by(parts.update(parts.len() - 1, parts.last().push(c)), sep) == join_by(
            parts,
            sep,
        ).push(c),
{
    let q = parts.update(parts.len() - 1, parts.last().push(c));
    if parts.len() == 1 {
        assert(q[0] == parts[0].push(c));
    } else {
        assert(q.drop_last() =~= parts.drop_last());
        assert(join_by(q, sep) =~= join_by(parts, sep).push(c));
    }
}

/// Splitting a text and joining the pieces with the same separator gives
/// the text back.
pub proof fn law_join_split(s: Seq<char>, sep: char)
    ensures
        join_by(split_by(s, sep), sep) == s,
    decreases s.len(),
{
    if s.len() == 0 {
    } else {
        let r = split_by(s.drop_last(), sep);
        law_join_split(s.drop_last(), sep);
        lemma_split_nonempty(s.drop_last(), sep);
        if s.last() == sep {
            let q = r.push(Seq::<char>::empty());
            assert(q.drop_last() =~= r);
            assert(join_by(q, sep) =~= s);
        } else {
            lemma_join_extend_last(r, sep, s.last());
            assert(s.drop_last().push(s.last()) =~= s);
        }
    }
}

/// No piece of a split holds the separator.
pub proof fn law_split_pieces(s: Seq<char>, sep: char)
    ensures
        forall|i: int|
            0 <= i < split_by(s, sep).len() ==> !(#[trigger] split_by(s, sep)[i]).contains(sep),
    decreases s.len(),
{
    if s.len() > 0 {
        let r = split_by(s.drop_last(), sep);
        law_split_pieces(s.drop_last(), sep);
        lemma_split_nonempty(s.drop_last(), sep);
        let q = split_by(s, sep);
        assert forall|i: int| 0 <= i < q.len() implies !(#[trigger] q[i]).contains(sep) by {
            if i < r.len() - 1 || (s.last() == sep && i < r.len()) {
                assert(q[i] == r[i]);
            } else if s.last() == sep {
                assert(q[i] =~= Seq::<char>::empty());
            } else {
                assert(q[i] == r[i].push(s.last()));
                assert(!r[i].contains(sep));
                if q[i].contains(sep) {
                    let k = choose|k: int| 0 <= k < q[i].len() && q[i][k] == sep;
                    assert(r[i][k] == sep);
                }
            }
        }
    }
}

/// Joining at least two pieces puts the first piece, then the separator,
/// then the others joined.
pub proof fn lemma_join_first(parts: Seq<Seq<char>>, sep: char)
    requires
        parts.len() >= 2,
    ensures
        join_by(parts, sep) == parts[0] + seq![sep] + join_by(parts.drop_first(), sep),
    decreases parts.len(),
{
    let t = parts.drop_first();
    if parts.len() == 2 {
        assert(parts.drop_last() =~= seq![parts[0]]);
        assert(join_by(parts.drop_last(), sep) == parts[0]);
        assert(t.len() == 1);
        assert(t[0] == parts.last());
        assert(join_by(t, sep) == parts.last());
    } else {
        lemma_join_first(parts.drop_last(), sep);
        assert(parts.drop_last().drop_first() =~= t.drop_last());
        assert(t.last() == parts.last());
        assert(join_by(parts, sep) =~= parts[0] + seq![sep] + join_by(t, sep));
    }
}

/// A text trims to nothing exactly when it is made only of whitespace.
pub proof fn law_trim_empty_iff_blank(s: Seq<char>)
    ensures
        spec_trim(s).len() == 0 <==> forall|i: int|
            0 <= i < s.len() ==> is_unicode_whitespace(#[trigger] s[i]),
{
    lemma_trim_start_blank(s);
    let a = trim_start_by(s, false);
    lemma_trim_start_first(s, false);
    lemma_trim_end_prefix(a, false);
    if a.len() > 0 {
        lemma_trim_end_keeps_non_blank(a);
    }
}

/// Leading-whitespace removal empties exactly the blank texts.
proof fn lemma_trim_start_blank(s: Seq<char>)
    ensures
        trim_start_by(s, false).len() == 0 <==> forall|i: int|
            0 <= i < s.len() ==> is_unicode_whitespace(#[trigger] s[i]),
    decreases s.len(),
{
    if s.len() > 0 {
        lemma_trim_start_blank(s.drop_first());
        if is_unicode_whitespace(s[0]) {
            if forall|i: int| 0 <= i < s.drop_first().len() ==> is_unicode_whitespace(
                #[trigger] s.drop_first()[i],
            ) {
                assert forall|i: int| 0 <= i < s.len() implies is_unicode_whitespace(
                    #[trigger] s[i],
                ) by {
                    if i > 0 {
                        assert(s[i] == s.drop_first()[i - 1]);
                    }
                }
            } else {
                let j = choose|j: int|
                    0 <= j < s.drop_first().len() && !is_unicode_whitespace(
                        #[trigger] s.drop_first()[j],
                    );
                assert(s[j + 1] == s.drop_first()[j]);
            }
        }
    }
}

/// A text that begins with a non-whitespace character keeps it when its
/// trailing whitespace is removed.
proof fn lemma_trim_end_keeps_non_blank(a: Seq<char>)
    requires
        a.len() > 0,
        !is_unicode_whitespace(a[0]),
    ensures
        trim_end_by(a, false).len() > 0,
    decreases a.len(),
{
    if a.len() > 1 && is_trimmed_char(a.last(), false) {
        lemma_trim_end_keeps_non_blank(a.drop_last());
    }
}

/// How many times `c` occurs in `s`.
pub open spec fn count_char(s: Seq<char>, c: char) -> nat
    decreases s.len(),
{
    if s.len() == 0 {
        0
    } else {
        count_char(s.drop_last(), c) + if s.last() == c {
            1nat
        } else {
            0nat
        }
    }
}

/// A split yields one piece more than there are separators.
pub proof fn law_split_count(s: Seq<char>, sep: char)
    ensures
        split_by(s, sep).len() == count_char(s, sep) + 1,
    decreases s.len(),
{
    if s.len() > 0 {
        law_split_count(s.drop_last(), sep);
    }
}

/// Removing leading whitespace drops a run of whitespace at the front.
proof fn lemma_trim_start_shape(s: Seq<char>, ascii: bool)
    ensures
        exists|a: int|
            0 <= a <= s.len() && trim_start_by(s, ascii) == s.skip(a) && forall|i: int|
                0 <= i < a ==> is_trimmed_char(#[trigger] s[i], ascii),
    decreases s.len(),
{
    if s.len() > 0 && is_trimmed_char(s[0], ascii) {
        let t = s.drop_first();
        lemma_trim_start_shape(t, ascii);
        let a = choose|a: int|
            0 <= a <= t.len() && trim_start_by(t, ascii) == t.skip(a) && forall|i: int|
                0 <= i < a ==> is_trimmed_char(#[trigger] t[i], ascii);
        assert(t.skip(a) =~= s.skip(a + 1));
        assert forall|i: int| 0 <= i < a + 1 implies is_trimmed_char(#[trigger] s[i], ascii) by {
            if i > 0 {
                assert(s[i] == t[i - 1]);
            }
        }
    } else {
        assert(s.skip(0) =~= s);
    }
}

/// Removing trailing whitespace drops a run of whitespace at the back.
proof fn lemma_trim_end_shape(s: Seq<char>, ascii: bool)
    ensures
        exists|b: int|
            0 <= b <= s.len() && trim_end_by(s, ascii) == s.take(b) && forall|i: int|
                b <= i < s.len() ==> is_trimmed_char(#[trigger] s[i], ascii),
    decreases s.len(),
{
    if s.len() > 0 && is_trimmed_char(s.last(), ascii) {
        let t = s.drop_last();
        lemma_trim_end_shape(t, ascii);
        let b = choose|b: int|
            0 <= b <= t.len() && trim_end_by(t, ascii) == t.take(b) && forall|i: int|
                b <= i < t.len() ==> is_trimmed_char(#[trigger] t[i], ascii);
        assert(t.take(b) =~= s.take(b));
        assert forall|i: int| b <= i < s.len() implies is_trimmed_char(#[trigger] s[i], ascii) by {
            if i < t.len() {
                assert(s[i] == t[i]);
            }
        }
    } else {
        assert(s.take(s.len() as int) =~= s);
    }
}

/// Trimming keeps a stretch of the text and drops only whitespace around
/// it: the result is `s[a..b]`, every character before `a` and from `b` on
/// is whitespace, and the result neither begins nor ends with whitespace.
pub proof fn law_trim_shape(s: Seq<char>, ascii: bool)
    ensures
        exists|a: int, b: int|
            0 <= a <= b <= s.len() && trim_by(s, ascii) == s.subrange(a, b) && (forall|i: int|
                0 <= i < a ==> is_trimmed_char(#[trigger] s[i], ascii)) && (forall|i: int|
                b <= i < s.len() ==> is_trimmed_char(#[trigger] s[i], ascii)),
        trim_by(s, ascii).len() > 0 ==> !is_trimmed_char(trim_by(s, ascii)[0], ascii)
            && !is_trimmed_char(trim_by(s, ascii).last(), ascii),
{
    law_trim_idempotent(s, ascii);
    lemma_trim_start_shape(s, ascii);
    let a = choose|a: int|
        0 <= a <= s.len() && trim_start_by(s, ascii) == s.skip(a) && forall|i: int|
            0 <= i < a ==> is_trimmed_char(#[trigger] s[i], ascii);
    let t = s.skip(a);
    lemma_trim_end_shape(t, ascii);
    let b = choose|b: int|
        0 <= b <= t.len() && trim_end_by(t, ascii) == t.take(b) && forall|i: int|
            b <= i < t.len() ==> is_trimmed_char(#[trigger] t[i], ascii);
    assert(t.take(b) =~= s.subrange(a, a + b));
    assert forall|i: int| a + b <= i < s.len() implies is_trimmed_char(#[trigger] s[i], ascii) by {
        assert(s[i] == t[i - a]);
    }
}

} // verus!
