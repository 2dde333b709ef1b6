//! Text as the configuration reads it: white space, trimming and splitting.

use vstd::prelude::*;
use vstd::string::*;

verus! {

/// A character with the Unicode property `White_Space`.
pub open spec fn is_white_space(c: char) -> bool {
    let n = c as u32;
    ||| 0x09 <= n <= 0x0d
    ||| n == 0x20
    ||| n == 0x85
    ||| n == 0xa0
    ||| n == 0x1680
    ||| 0x2000 <= n <= 0x200a
    ||| n == 0x2028
    ||| n == 0x2029
    ||| n == 0x202f
    ||| n == 0x205f
    ||| n == 0x3000
}

/// Whether a character is white space.
pub fn white_space(c: char) -> (r: bool)
    ensures
        r == is_white_space(c),
{
    let n: u32 = c as u32;
    (0x09 <= n && n <= 0x0d) || n == 0x20 || n == 0x85 || n == 0xa0 || n == 0x1680 || (0x2000 <= n
        && n <= 0x200a) || n == 0x2028 || n == 0x2029 || n == 0x202f || n == 0x205f || n == 0x3000
}

/// The characters of a string slice, in order.
pub fn characters(s: &str) -> (r: Vec<char>)
    ensures
        r@ == s@,
{
    let mut out: Vec<char> = Vec::new();
    for c in it: s.chars()
        invariant
            out@ == it.seq().take(it.index() as int),
            it.seq() == s@,
    {
        out.push(c);
    }
    assert(s@.take(s@.len() as int) == s@);
    out
}

/// `s` without its leading white space.
pub open spec fn trim_start(s: Seq<char>) -> Seq<char>
    decreases s.len(),
{
    if s.len() > 0 && is_white_space(s.first()) {
        trim_start(s.drop_first())
    } else {
        s
    }
}

/// `s` without its trailing white space.
pub open spec fn trim_end(s: Seq<char>) -> Seq<char>
    decreases s.len(),
{
    if s.len() > 0 && is_white_space(s.last()) {
        trim_end(s.drop_last())
    } else {
        s
    }
}

/// `s` without its leading and its trailing white space.
pub open spec fn trimmed(s: Seq<char>) -> Seq<char> {
    trim_end(trim_start(s))
}

/// `trim_start` drops exactly the `lo` characters before the first that is not white space.
proof fn lemma_trim_start(s: Seq<char>, lo: int)
    requires
        0 <= lo <= s.len(),
        forall|i: int| 0 <= i < lo ==> is_white_space(#[trigger] s[i]),
        lo < s.len() ==> !is_white_space(s[lo]),
    ensures
        trim_start(s) == s.skip(lo),
    decreases lo,
{
    if lo == 0 {
        assert(s.skip(0) == s);
    } else {
        assert(is_white_space(s[0]));
        let rest = s.drop_first();
        assert forall|i: int| 0 <= i < lo - 1 implies is_white_space(#[trigger] rest[i]) by {
            assert(rest[i] == s[i + 1]);
        }
        lemma_trim_start(rest, lo - 1);
        assert(rest.skip(lo - 1) == s.skip(lo));
    }
}

/// `trim_end` keeps exactly the `hi` characters up to the last that is not white space.
proof fn lemma_trim_end(s: Seq<char>, hi: int)
    requires
        0 <= hi <= s.len(),
        forall|i: int| hi <= i < s.len() ==> is_white_space(#[trigger] s[i]),
        0 < hi ==> !is_white_space(s[hi - 1]),
    ensures
        trim_end(s) == s.take(hi),
    decreases s.len() - hi,
{
    if hi == s.len() {
        assert(s.take(hi) == s);
    } else {
        assert(is_white_space(s[s.len() - 1]));
        let rest = s.drop_last();
        assert forall|i: int| hi <= i < rest.len() implies is_white_space(#[trigger] rest[i]) by {
            assert(rest[i] == s[i]);
        }
        lemma_trim_end(rest, hi);
        assert(rest.take(hi) == s.take(hi));
    }
}

/// The part of `s` between its leading and its trailing white space.
pub fn trim(s: &str) -> (r: &str)
    ensures
        r@ == trimmed(s@),
{
    let chars = characters(s);
    let mut lo: usize = 0;
    while lo < chars.len() && white_space(chars[lo])
        invariant
            0 <= lo <= chars@.len(),
            forall|i: int| 0 <= i < lo ==> is_white_space(#[trigger] chars@[i]),
        decreases chars@.len() - lo,
    {
        lo = lo + 1;
    }
    let mut hi: usize = chars.len();
    while lo < hi && white_space(chars[hi - 1])
        invariant
            0 <= lo <= hi <= chars@.len(),
            forall|i: int| hi <= i < chars@.len() ==> is_white_space(#[trigger] chars@[i]),
        decreases hi,
    {
        hi = hi - 1;
    }
    proof {
        lemma_trim_start(s@, lo as int);
        let rest = s@.skip(lo as int);
        assert forall|i: int| hi - lo <= i < rest.len() implies is_white_space(
            #[trigger] rest[i],
        ) by {
            assert(rest[i] == s@[i + lo]);
        }
        lemma_trim_end(rest, hi - lo);
        assert(rest.take(hi - lo) == s@.subrange(lo as int, hi as int));
    }
    s.substring_char(lo, hi)
}

/// The place of the first `c` in `s`, or the length of `s` where there is none.
pub open spec fn first_place(s: Seq<char>, c: char) -> int
    decreases s.len(),
{
    if s.len() == 0 || s.first() == c {
        0
    } else {
        1 + first_place(s.drop_first(), c)
    }
}

/// The parts of `s` between one `c` and the next: always one more than `s` has of `c`.
pub open spec fn split(s: Seq<char>, c: char) -> Seq<Seq<char>>
    decreases s.len(),
{
    let i = first_place(s, c);
    if 0 <= i < s.len() {
        seq![s.take(i)] + split(s.skip(i + 1), c)
    } else {
        seq![s]
    }
}

/// What comes before the first `c` and what comes after it.
pub open spec fn split_once(s: Seq<char>, c: char) -> Option<(Seq<char>, Seq<char>)> {
    let i = first_place(s, c);
    if 0 <= i < s.len() {
        Some((s.take(i), s.skip(i + 1)))
    } else {
        None
    }
}

/// `first_place` finds the first `c`, and nothing before it is one.
pub proof fn lemma_first_place(s: Seq<char>, c: char)
    ensures
        0 <= first_place(s, c) <= s.len(),
        first_place(s, c) < s.len() ==> s[first_place(s, c)] == c,
        forall|i: int| 0 <= i < first_place(s, c) ==> #[trigger] s[i] != c,
    decreases s.len(),
{
    if s.len() == 0 || s.first() == c {
    } else {
        let rest = s.drop_first();
        lemma_first_place(rest, c);
        assert forall|i: int| 0 <= i < first_place(s, c) implies #[trigger] s[i] != c by {
            if i > 0 {
                assert(rest[i - 1] == s[i]);
            }
        }
    }
}

/// A place that holds `c`, with none before it, is the first.
pub proof fn lemma_first_place_is(s: Seq<char>, c: char, at: int)
    requires
        0 <= at <= s.len(),
        at < s.len() ==> s[at] == c,
        forall|i: int| 0 <= i < at ==> #[trigger] s[i] != c,
    ensures
        first_place(s, c) == at,
{
    lemma_first_place(s, c);
    let p = first_place(s, c);
    if p < at {
        assert(s[p] != c);
    }
    if at < p {
        assert(s[at] != c);
    }
}

/// The place of the first `c` at or after `from`.
fn find(chars: &Vec<char>, c: char, from: usize) -> (at: usize)
    requires
        from <= chars@.len(),
    ensures
        from <= at <= chars@.len(),
        at - from == first_place(chars@.skip(from as int), c),
{
    let mut at: usize = from;
    while at < chars.len() && chars[at] != c
        invariant
            from <= at <= chars@.len(),
            forall|i: int| from <= i < at ==> #[trigger] chars@[i] != c,
        decreases chars@.len() - at,
    {
        at = at + 1;
    }
    proof {
        let rest = chars@.skip(from as int);
        assert forall|i: int| 0 <= i < at - from implies #[trigger] rest[i] != c by {
            assert(rest[i] == chars@[i + from]);
        }
        lemma_first_place_is(rest, c, at - from);
    }
    at
}

/// What comes before the first `c` in `s` and what comes after it, where there is a `c`.
pub fn cut<'a>(s: &'a str, c: char) -> (r: Option<(&'a str, &'a str)>)
    ensures
        match r {
            Some((before, after)) => split_once(s@, c) == Some((before@, after@)),
            None => split_once(s@, c) is None,
        },
{
    let chars = characters(s);
    assert(chars@.skip(0) == chars@);
    let at = find(&chars, c, 0);
    if at < chars.len() {
        let before = s.substring_char(0, at);
        let after = s.substring_char(at + 1, chars.len());
        proof {
            assert(s@.take(at as int) == before@);
            assert(s@.skip(at + 1) == after@);
        }
        Some((before, after))
    } else {
        None
    }
}

/// The texts of a list of string slices.
pub open spec fn slices(v: Seq<&str>) -> Seq<Seq<char>> {
    v.map_values(|s: &str| s@)
}

/// The texts of a list of strings.
pub open spec fn texts(v: Seq<String>) -> Seq<Seq<char>> {
    v.map_values(|s: String| s@)
}

/// The text of a string that may be there.
pub open spec fn text_of(s: Option<String>) -> Option<Seq<char>> {
    match s {
        Some(t) => Some(t@),
        None => None,
    }
}

/// The parts of `s` between one `c` and the next.
pub fn parts<'a>(s: &'a str, c: char) -> (r: Vec<&'a str>)
    ensures
        slices(r@) == split(s@, c),
{
    let chars = characters(s);
    let mut out: Vec<&'a str> = Vec::new();
    let mut from: usize = 0;
    assert(s@.skip(0) == s@);
    let mut at: usize = find(&chars, c, 0);
    while at < chars.len()
        invariant
            chars@ == s@,
            0 <= from <= at <= chars@.len(),
            at - from == first_place(chars@.skip(from as int), c),
            split(s@, c) == slices(out@) + split(s@.skip(from as int), c),
        decreases chars@.len() - at,
    {
        let ghost done = slices(out@);
        let ghost rest = s@.skip(from as int);
        let part = s.substring_char(from, at);
        out.push(part);
        proof {
            assert(part@ == rest.take(at - from));
            assert(rest.skip(at - from + 1) == s@.skip(at + 1));
            assert(slices(out@) == done.push(part@));
            assert(split(s@, c) == slices(out@) + split(s@.skip(at + 1), c));
        }
        from = at + 1;
        at = find(&chars, c, from);
    }
    let ghost done = slices(out@);
    let part = s.substring_char(from, chars.len());
    out.push(part);
    proof {
        let rest = s@.skip(from as int);
        assert(part@ == rest);
        assert(slices(out@) == done.push(part@));
    }
    out
}

/// The parts, each trimmed, without those that are empty then.
pub open spec fn kept(parts: Seq<Seq<char>>) -> Seq<Seq<char>>
    decreases parts.len(),
{
    if parts.len() == 0 {
        Seq::empty()
    } else {
        let before = kept(parts.drop_last());
        let last = trimmed(parts.last());
        if last.len() == 0 {
            before
        } else {
            before.push(last)
        }
    }
}

/// The entries of a comma-separated list.
pub open spec fn entries(s: Seq<char>) -> Seq<Seq<char>> {
    kept(split(s, ','))
}

/// The entries of a comma-separated list: trimmed, and blank ones left out.
pub fn split_csv(s: &str) -> (r: Vec<String>)
    ensures
        texts(r@) == entries(s@),
{
    let fields = parts(s, ',');
    let ghost all = slices(fields@);
    let mut out: Vec<String> = Vec::new();
    let mut i: usize = 0;
    assert(kept(all.take(0)) == texts(out@));
    while i < fields.len()
        invariant
            0 <= i <= fields@.len(),
            all == slices(fields@),
            texts(out@) == kept(all.take(i as int)),
        decreases fields@.len() - i,
    {
        let ghost done = texts(out@);
        let entry = trim(fields[i]);
        proof {
            assert(all.take(i + 1).drop_last() == all.take(i as int));
            assert(all.take(i + 1).last() == fields@[i as int]@);
        }
        if !entry.is_empty() {
            let owned = entry.to_owned();
            out.push(owned);
            assert(texts(out@) == done.push(entry@));
        }
        i = i + 1;
    }
    assert(all.take(i as int) == all);
    out
}

/// What is left of a text once it is trimmed is a stretch of it, and no white space stands at
/// either end of that stretch.
pub proof fn lemma_trimmed(s: Seq<char>) -> (bounds: (int, int))
    ensures
        0 <= bounds.0 <= bounds.1 <= s.len(),
        trimmed(s) == s.subrange(bounds.0, bounds.1),
        trimmed(s).len() > 0 ==> !is_white_space(trimmed(s).first()) && !is_white_space(
            trimmed(s).last(),
        ),
        forall|i: int| 0 <= i < bounds.0 ==> is_white_space(#[trigger] s[i]),
        forall|i: int| bounds.1 <= i < s.len() ==> is_white_space(#[trigger] s[i]),
{
    let lo = lemma_leading(s);
    lemma_trim_start(s, lo);
    let rest = s.skip(lo);
    let kept = lemma_trailing(rest);
    lemma_trim_end(rest, kept);
    assert(rest.take(kept) == s.subrange(lo, lo + kept));
    assert forall|i: int| lo + kept <= i < s.len() implies is_white_space(#[trigger] s[i]) by {
        assert(rest[i - lo] == s[i]);
    }
    (lo, lo + kept)
}

/// How many characters of white space `s` begins with.
proof fn lemma_leading(s: Seq<char>) -> (lo: int)
    ensures
        0 <= lo <= s.len(),
        forall|i: int| 0 <= i < lo ==> is_white_space(#[trigger] s[i]),
        lo < s.len() ==> !is_white_space(s[lo]),
    decreases s.len(),
{
    if s.len() > 0 && is_white_space(s.first()) {
        let rest = s.drop_first();
        let lo = lemma_leading(rest);
        assert forall|i: int| 0 <= i < lo + 1 implies is_white_space(#[trigger] s[i]) by {
            if i > 0 {
                assert(rest[i - 1] == s[i]);
            }
        }
        lo + 1
    } else {
        0
    }
}

/// How many characters of `s` come before the white space that it ends with.
proof fn lemma_trailing(s: Seq<char>) -> (hi: int)
    ensures
        0 <= hi <= s.len(),
        forall|i: int| hi <= i < s.len() ==> is_white_space(#[trigger] s[i]),
        0 < hi ==> !is_white_space(s[hi - 1]),
    decreases s.len(),
{
    if s.len() > 0 && is_white_space(s.last()) {
        let rest = s.drop_last();
        let hi = lemma_trailing(rest);
        assert forall|i: int| hi <= i < s.len() implies is_white_space(#[trigger] s[i]) by {
            if i < rest.len() {
                assert(rest[i] == s[i]);
            }
        }
        hi
    } else {
        s.len() as int
    }
}

/// A stretch with white space all around it, and none at its own ends, is what trimming leaves.
pub proof fn lemma_trimmed_is(s: Seq<char>, lo: int, hi: int)
    requires
        0 <= lo <= hi <= s.len(),
        forall|i: int| 0 <= i < lo ==> is_white_space(#[trigger] s[i]),
        forall|i: int| hi <= i < s.len() ==> is_white_space(#[trigger] s[i]),
        lo < hi ==> !is_white_space(s[lo]) && !is_white_space(s[hi - 1]),
    ensures
        trimmed(s) == s.subrange(lo, hi),
{
    let bounds = lemma_trimmed(s);
    if trimmed(s).len() > 0 {
        assert(trimmed(s).first() == s[bounds.0]);
        assert(trimmed(s).last() == s[bounds.1 - 1]);
        if lo == hi {
            assert(is_white_space(s[bounds.0]));
        }
        if bounds.0 < lo {
            assert(is_white_space(s[bounds.0]));
        }
        if hi < bounds.1 {
            assert(is_white_space(s[bounds.1 - 1]));
        }
    }
    if lo < hi {
        if lo < bounds.0 || bounds.1 <= lo {
            assert(is_white_space(s[lo]));
        }
        if bounds.1 < hi {
            assert(is_white_space(s[hi - 1]));
        }
    }
}

/// A text with no white space at either end is left as it is.
pub proof fn lemma_trimmed_keeps(s: Seq<char>)
    requires
        s.len() > 0 ==> !is_white_space(s.first()) && !is_white_space(s.last()),
    ensures
        trimmed(s) == s,
{
}

/// Trimming twice is trimming once.
pub proof fn law_trim_once(s: Seq<char>)
    ensures
        trimmed(trimmed(s)) == trimmed(s),
{
    let _ = lemma_trimmed(s);
    lemma_trimmed_keeps(trimmed(s));
}

/// Splitting two texts that a separator joins gives the parts of the one, then those of the other.
pub proof fn lemma_split_joined(a: Seq<char>, b: Seq<char>, c: char)
    ensures
        split(a.push(c) + b, c) == split(a, c) + split(b, c),
    decreases a.len(),
{
    let whole = a.push(c) + b;
    let i = first_place(a, c);
    lemma_first_place(a, c);
    assert forall|k: int| 0 <= k < i implies #[trigger] whole[k] != c by {
        assert(a[k] == whole[k]);
    }
    assert(whole[i] == c);
    lemma_first_place_is(whole, c, i);
    if i < a.len() {
        lemma_split_joined(a.skip(i + 1), b, c);
        assert(whole.take(i) == a.take(i));
        assert(whole.skip(i + 1) == a.skip(i + 1).push(c) + b);
        assert(split(whole, c) == seq![a.take(i)] + (split(a.skip(i + 1), c) + split(b, c)));
        assert(split(whole, c) == split(a, c) + split(b, c));
    } else {
        assert(whole.take(i) == a);
        assert(whole.skip(i + 1) == b);
    }
}

/// A text without the separator is its own only part.
pub proof fn lemma_split_whole(s: Seq<char>, c: char)
    requires
        !s.contains(c),
    ensures
        split(s, c) == seq![s],
{
    assert forall|i: int| 0 <= i < s.len() implies #[trigger] s[i] != c by {}
    lemma_first_place_is(s, c, s.len() as int);
}

/// No part holds the separator.
pub proof fn lemma_split_parts(s: Seq<char>, c: char)
    ensures
        split(s, c).len() > 0,
        forall|i: int| 0 <= i < split(s, c).len() ==> !(#[trigger] split(s, c)[i]).contains(c),
    decreases s.len(),
{
    let i = first_place(s, c);
    lemma_first_place(s, c);
    if i < s.len() {
        let rest = split(s.skip(i + 1), c);
        lemma_split_parts(s.skip(i + 1), c);
        let head = s.take(i);
        assert(!head.contains(c)) by {
            if head.contains(c) {
                let k = choose|k: int| 0 <= k < head.len() && head[k] == c;
                assert(s[k] == c);
            }
        }
        assert forall|k: int| 0 <= k < split(s, c).len() implies !(#[trigger] split(
            s,
            c,
        )[k]).contains(c) by {
            if k > 0 {
                assert(split(s, c)[k] == rest[k - 1]);
            }
        }
    } else {
        assert(!s.contains(c)) by {
            if s.contains(c) {
                let k = choose|k: int| 0 <= k < s.len() && s[k] == c;
                assert(s[k] == c);
            }
        }
    }
}

/// What is kept of two lists of parts, one after the other.
proof fn lemma_kept_concat(a: Seq<Seq<char>>, b: Seq<Seq<char>>)
    ensures
        kept(a + b) == kept(a) + kept(b),
    decreases b.len(),
{
    if b.len() == 0 {
        assert(a + b == a);
    } else {
        lemma_kept_concat(a, b.drop_last());
        assert((a + b).drop_last() == a + b.drop_last());
        assert((a + b).last() == b.last());
    }
}

/// Every entry that is kept is one of the parts, trimmed, and is not empty.
proof fn lemma_kept(parts: Seq<Seq<char>>)
    ensures
        forall|i: int|
            0 <= i < kept(parts).len() ==> (#[trigger] kept(parts)[i]).len() > 0 && exists|k: int|
                0 <= k < parts.len() && kept(parts)[i] == trimmed(#[trigger] parts[k]),
    decreases parts.len(),
{
    if parts.len() > 0 {
        let before = parts.drop_last();
        lemma_kept(before);
        assert forall|i: int| 0 <= i < kept(parts).len() implies (#[trigger] kept(parts)[i]).len()
            > 0 && exists|k: int|
            0 <= k < parts.len() && kept(parts)[i] == trimmed(#[trigger] parts[k]) by {
            if i < kept(before).len() {
                assert(kept(parts)[i] == kept(before)[i]);
                let k = choose|k: int|
                    0 <= k < before.len() && kept(before)[i] == trimmed(#[trigger] before[k]);
                assert(before[k] == parts[k]);
            } else {
                assert(kept(parts)[i] == trimmed(parts[parts.len() - 1]));
            }
        }
    }
}

/// No entry of a comma-separated list is blank, begins or ends with white space, or holds a
/// comma.
pub proof fn law_entries_are_clean(s: Seq<char>, i: int)
    requires
        0 <= i < entries(s).len(),
    ensures
        entries(s)[i].len() > 0,
        trimmed(entries(s)[i]) == entries(s)[i],
        !entries(s)[i].contains(','),
{
    let fields = split(s, ',');
    let entry = entries(s)[i];
    lemma_kept(fields);
    lemma_split_parts(s, ',');
    let k = choose|k: int| 0 <= k < fields.len() && entry == trimmed(#[trigger] fields[k]);
    let bounds = lemma_trimmed(fields[k]);
    law_trim_once(fields[k]);
    if entry.contains(',') {
        let j = choose|j: int| 0 <= j < entry.len() && entry[j] == ',';
        assert(fields[k][bounds.0 + j] == ',');
    }
}

/// The list that has these entries, with one comma between each and the next.
pub open spec fn listed(list: Seq<Seq<char>>) -> Seq<char>
    decreases list.len(),
{
    if list.len() == 0 {
        Seq::empty()
    } else if list.len() == 1 {
        list[0]
    } else {
        listed(list.drop_last()).push(',') + list.last()
    }
}

/// A comma-separated list is read back as the entries that it was written from.
pub proof fn law_list_is_read_back(list: Seq<Seq<char>>)
    requires
        forall|i: int|
            0 <= i < list.len() ==> (#[trigger] list[i]).len() > 0 && trimmed(list[i]) == list[i]
                && !list[i].contains(','),
    ensures
        entries(listed(list)) == list,
    decreases list.len(),
{
    if list.len() == 0 {
        let empty = Seq::<char>::empty();
        lemma_split_whole(empty, ',');
        lemma_trimmed_keeps(empty);
        assert(seq![empty].drop_last() == Seq::<Seq<char>>::empty());
        assert(kept(seq![empty].drop_last()) == Seq::<Seq<char>>::empty());
        assert(kept(seq![empty]) == list);
    } else {
        let last = list.last();
        assert(last == list[list.len() - 1]);
        lemma_split_whole(last, ',');
        assert(seq![last].drop_last() == Seq::<Seq<char>>::empty());
        assert(kept(seq![last].drop_last()) == Seq::<Seq<char>>::empty());
        assert(kept(seq![last]) == seq![last]);
        if list.len() == 1 {
            assert(list == seq![last]);
        } else {
            let before = list.drop_last();
            assert forall|i: int| 0 <= i < before.len() implies (#[trigger] before[i]).len() > 0
                && trimmed(before[i]) == before[i] && !before[i].contains(',') by {
                assert(before[i] == list[i]);
            }
            law_list_is_read_back(before);
            lemma_split_joined(listed(before), last, ',');
            lemma_kept_concat(split(listed(before), ','), seq![last]);
            assert(before + seq![last] == list);
        }
    }
}

/// Trimming leaves the stretch from the first to the last character that is not white space, and
/// nothing of a text that is all white space.
pub proof fn law_trimming_leaves_the_middle(a: Seq<char>, m: Seq<char>, b: Seq<char>)
    requires
        forall|i: int| 0 <= i < a.len() ==> is_white_space(#[trigger] a[i]),
        forall|i: int| 0 <= i < b.len() ==> is_white_space(#[trigger] b[i]),
        m.len() > 0 ==> !is_white_space(m[0]) && !is_white_space(m[m.len() - 1]),
    ensures
        trimmed(a + m + b) == m,
{
    let s = a + m + b;
    let lo = a.len() as int;
    let hi = lo + m.len();
    assert forall|i: int| 0 <= i < lo implies is_white_space(#[trigger] s[i]) by {
        assert(s[i] == a[i]);
    }
    assert forall|i: int| hi <= i < s.len() implies is_white_space(#[trigger] s[i]) by {
        assert(s[i] == b[i - hi]);
    }
    if m.len() > 0 {
        assert(s[lo] == m[0] && s[hi - 1] == m[m.len() - 1]);
    }
    lemma_trimmed_is(s, lo, hi);
    assert(s.subrange(lo, hi) == m);
}

/// A text is cut at the first separator, so that the two sides with the separator between them
/// make the text again and the left side has none; a text without the separator is not cut.
pub proof fn law_cut_sides_make_the_text(s: Seq<char>, c: char, a: Seq<char>, b: Seq<char>)
    ensures
        split_once(s, c) == Some((a, b)) <==> s == a.push(c) + b && !a.contains(c),
        split_once(s, c) is None <==> !s.contains(c),
{
    let i = first_place(s, c);
    lemma_first_place(s, c);
    if i < s.len() {
        assert(s == s.take(i).push(c) + s.skip(i + 1));
        assert(!s.take(i).contains(c)) by {
            if s.take(i).contains(c) {
                let k = choose|k: int| 0 <= k < s.take(i).len() && s.take(i)[k] == c;
                assert(s[k] == c);
            }
        }
    }
    if s.contains(c) {
        let k = choose|k: int| 0 <= k < s.len() && s[k] == c;
        assert(s[k] == c);
    }
    if s == a.push(c) + b && !a.contains(c) {
        let at = a.len() as int;
        assert(s[at] == c);
        assert forall|k: int| 0 <= k < at implies #[trigger] s[k] != c by {
            assert(a[k] == s[k]);
            assert(a.contains(a[k]));
        }
        lemma_first_place_is(s, c, at);
        assert(s.take(at) == a && s.skip(at + 1) == b);
    }
}

/// The entries of a list are those of what stands before a comma, then those of what stands after
/// it; what has no comma is one entry, without the white space around it, or none if it is blank.
pub proof fn law_entries_stand_between_commas(s: Seq<char>, a: Seq<char>, b: Seq<char>)
    ensures
        entries(a.push(',') + b) == entries(a) + entries(b),
        !s.contains(',') && trimmed(s).len() == 0 ==> entries(s) == Seq::<Seq<char>>::empty(),
        !s.contains(',') && trimmed(s).len() > 0 ==> entries(s) == seq![trimmed(s)],
{
    lemma_split_joined(a, b, ',');
    lemma_kept_concat(split(a, ','), split(b, ','));
    if !s.contains(',') {
        lemma_split_whole(s, ',');
        assert(seq![s].drop_last() == Seq::<Seq<char>>::empty());
        assert(kept(seq![s].drop_last()) == Seq::<Seq<char>>::empty());
        assert(kept(seq![s]) == if trimmed(s).len() == 0 {
            Seq::<Seq<char>>::empty()
        } else {
            seq![trimmed(s)]
        });
    }
}

/// The texts of a list are those of its members, one for each, at the same places.
pub proof fn law_texts_are_those_of_the_members(owned: Seq<String>, borrowed: Seq<&str>)
    ensures
        texts(owned).len() == owned.len(),
        forall|i: int| 0 <= i < owned.len() ==> #[trigger] texts(owned)[i] == owned[i]@,
        slices(borrowed).len() == borrowed.len(),
        forall|i: int| 0 <= i < borrowed.len() ==> #[trigger] slices(borrowed)[i] == borrowed[i]@,
{
}

/// A string that is there has its own text, and one that is not has none.
pub proof fn law_text_is_there_with_the_string(s: String)
    ensures
        text_of(Some(s)) == Some(s@),
        text_of(None) is None,
{
}

} // verus!
