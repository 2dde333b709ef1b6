//! Named settings, as the environment and the node's configuration file give them.

use vstd::prelude::*;
use vstd::string::*;

use crate::text::{
    cut, is_white_space, law_cut_sides_make_the_text, law_trim_once, lemma_first_place_is,
    lemma_split_joined, lemma_split_whole, lemma_trimmed, lemma_trimmed_is, lemma_trimmed_keeps,
    parts, slices, split, split_once, trim, trimmed,
};

verus! {

/// Values by name. A name has one value at most: the one that it was given last.
pub struct Vars {
    pairs: Vec<(String, String)>,
}

/// The values that pairs give, the later of two with one name standing for it.
pub closed spec fn values(pairs: Seq<(String, String)>) -> Map<Seq<char>, Seq<char>>
    decreases pairs.len(),
{
    if pairs.len() == 0 {
        Map::empty()
    } else {
        values(pairs.drop_last()).insert(pairs.last().0@, pairs.last().1@)
    }
}

impl View for Vars {
    type V = Map<Seq<char>, Seq<char>>;

    closed spec fn view(&self) -> Map<Seq<char>, Seq<char>> {
        values(self.pairs@)
    }
}

impl Vars {
    /// No names at all.
    pub fn new() -> (r: Vars)
        ensures
            r@ == Map::<Seq<char>, Seq<char>>::empty(),
    {
        Vars { pairs: Vec::new() }
    }

    /// Gives a name a value, in place of the one that it had.
    pub fn insert(&mut self, name: String, value: String)
        ensures
            final(self)@ == old(self)@.insert(name@, value@),
    {
        self.pairs.push((name, value));
        assert(self.pairs@.drop_last() == old(self).pairs@);
    }

    /// The value of a name, if it has one.
    pub fn get(&self, name: &str) -> (r: Option<&String>)
        ensures
            match r {
                Some(value) => self@.contains_key(name@) && value@ == self@[name@],
                None => !self@.contains_key(name@),
            },
    {
        let wanted = name.to_owned();
        let mut i: usize = self.pairs.len();
        assert(self.pairs@.take(i as int) == self.pairs@);
        while i > 0
            invariant
                0 <= i <= self.pairs@.len(),
                wanted@ == name@,
                self@.contains_key(name@) == values(self.pairs@.take(i as int)).contains_key(name@),
                self@.contains_key(name@) ==> self@[name@] == values(
                    self.pairs@.take(i as int),
                )[name@],
            decreases i,
        {
            i = i - 1;
            proof {
                assert(self.pairs@.take(i + 1).drop_last() == self.pairs@.take(i as int));
                assert(self.pairs@.take(i + 1).last() == self.pairs@[i as int]);
            }
            if self.pairs[i].0 == wanted {
                return Some(&self.pairs[i].1);
            }
        }
        None
    }

    /// Whether a name has a value.
    pub fn contains_key(&self, name: &str) -> (r: bool)
        ensures
            r == self@.contains_key(name@),
    {
        self.get(name).is_some()
    }

    /// Whether no name has a value.
    pub fn is_empty(&self) -> (r: bool)
        ensures
            r == (self@ == Map::<Seq<char>, Seq<char>>::empty()),
    {
        proof {
            if self.pairs@.len() > 0 {
                assert(self@.contains_key(self.pairs@.last().0@));
            }
        }
        self.pairs.len() == 0
    }
}

/// What one line of the configuration file says: a name and its value. A blank line, a comment
/// (a line that begins with `#`), a line without `=` and a line whose value is blank say nothing.
pub open spec fn pair(line: Seq<char>) -> Option<(Seq<char>, Seq<char>)> {
    let l = trimmed(line);
    if l.len() == 0 || l.first() == '#' {
        None
    } else {
        match split_once(l, '=') {
            Some((name, value)) => if trimmed(value).len() == 0 {
                None
            } else {
                Some((trimmed(name), trimmed(value)))
            },
            None => None,
        }
    }
}

/// The values that lines give, a later line standing before an earlier one with the same name.
pub open spec fn said(lines: Seq<Seq<char>>) -> Map<Seq<char>, Seq<char>>
    decreases lines.len(),
{
    if lines.len() == 0 {
        Map::empty()
    } else {
        let before = said(lines.drop_last());
        match pair(lines.last()) {
            Some((name, value)) => before.insert(name, value),
            None => before,
        }
    }
}

/// The values that the text of a configuration file gives. Lines end at a line feed; a carriage
/// return before it is white space at the end of its line, and goes with it.
pub open spec fn file_values(text: Seq<char>) -> Map<Seq<char>, Seq<char>> {
    said(split(text, '\n'))
}

/// What one line of the configuration file says.
fn read_line<'a>(line: &'a str) -> (r: Option<(&'a str, &'a str)>)
    ensures
        match r {
            Some((name, value)) => pair(line@) == Some((name@, value@)),
            None => pair(line@) is None,
        },
{
    let l = trim(line);
    if l.is_empty() || l.get_char(0) == '#' {
        return None;
    }
    match cut(l, '=') {
        Some((name, value)) => {
            let name = trim(name);
            let value = trim(value);
            if value.is_empty() {
                None
            } else {
                Some((name, value))
            }
        },
        None => None,
    }
}

/// Reads the configuration file from its text: `NAME=VALUE` lines, with comments and blank lines
/// between them. Without a file (`None`) nothing is configured.
pub fn load_env_file(text: Option<&str>) -> (r: Vars)
    ensures
        r@ == match text {
            Some(t) => file_values(t@),
            None => Map::<Seq<char>, Seq<char>>::empty(),
        },
{
    let mut out = Vars::new();
    if let Some(t) = text {
        let lines = parts(t, '\n');
        let ghost all = slices(lines@);
        let mut i: usize = 0;
        assert(said(all.take(0)) == out@);
        while i < lines.len()
            invariant
                0 <= i <= lines@.len(),
                all == slices(lines@),
                out@ == said(all.take(i as int)),
            decreases lines@.len() - i,
        {
            proof {
                assert(all.take(i + 1).drop_last() == all.take(i as int));
                assert(all.take(i + 1).last() == lines@[i as int]@);
            }
            if let Some((name, value)) = read_line(lines[i]) {
                out.insert(name.to_owned(), value.to_owned());
            }
            i = i + 1;
        }
        assert(all.take(i as int) == all);
    }
    out
}

/// What two lists of lines say, one after the other.
proof fn lemma_said_concat(a: Seq<Seq<char>>, b: Seq<Seq<char>>)
    ensures
        said(a + b) == said(a).union_prefer_right(said(b)),
    decreases b.len(),
{
    if b.len() == 0 {
        assert(a + b == a);
        assert(said(a).union_prefer_right(said(b)) == said(a));
    } else {
        lemma_said_concat(a, b.drop_last());
        assert((a + b).drop_last() == a + b.drop_last());
        assert((a + b).last() == b.last());
        match pair(b.last()) {
            Some((name, value)) => {
                assert(said(a).union_prefer_right(said(b.drop_last())).insert(name, value)
                    == said(a).union_prefer_right(said(b.drop_last()).insert(name, value)));
            },
            None => {},
        }
    }
}

/// Lines that are added to a file add their values to the file's, and stand before the values
/// that the names had; names that the added lines do not mention keep theirs.
pub proof fn law_added_lines_win(text: Seq<char>, added: Seq<char>)
    ensures
        file_values(text.push('\n') + added) == file_values(text).union_prefer_right(
            file_values(added),
        ),
{
    lemma_split_joined(text, added, '\n');
    lemma_said_concat(split(text, '\n'), split(added, '\n'));
}

/// A line with `=` in it is cut at the first one, and the name and the value lose the white space
/// around them, whatever stands in them: it says nothing exactly when its value is blank or the
/// line is a comment.
pub proof fn law_line_is_cut_at_first_equals(name: Seq<char>, value: Seq<char>)
    requires
        !name.contains('='),
    ensures
        pair(name.push('=') + value) == if trimmed(value).len() == 0 || (trimmed(name).len() > 0
            && trimmed(name).first() == '#') {
            None::<(Seq<char>, Seq<char>)>
        } else {
            Some((trimmed(name), trimmed(value)))
        },
{
    let line = name.push('=') + value;
    let n = lemma_trimmed(name);
    let v = lemma_trimmed(value);
    let eq = name.len() as int;
    let blank_name = n.0 == n.1;
    let blank_value = v.0 == v.1;
    let lo = if blank_name {
        eq
    } else {
        n.0
    };
    let hi = if blank_value {
        eq + 1
    } else {
        eq + 1 + v.1
    };
    assert(line[eq] == '=');
    assert(!is_white_space('='));
    assert forall|i: int| 0 <= i < lo implies is_white_space(#[trigger] line[i]) by {
        assert(line[i] == name[i]);
    }
    assert forall|i: int| hi <= i < line.len() implies is_white_space(#[trigger] line[i]) by {
        assert(line[i] == value[i - eq - 1]);
    }
    if !blank_name {
        assert(line[lo] == name[n.0]);
        assert(trimmed(name).first() == name[n.0]);
    }
    if !blank_value {
        assert(line[hi - 1] == value[v.1 - 1]);
        assert(trimmed(value).last() == value[v.1 - 1]);
    }
    lemma_trimmed_is(line, lo, hi);
    let l = trimmed(line);
    assert(l == line.subrange(lo, hi));
    let at = eq - lo;
    assert forall|i: int| 0 <= i < at implies #[trigger] l[i] != '=' by {
        assert(l[i] == name[i + lo]);
        assert(name.contains(name[i + lo]));
    }
    assert(l[at] == '=');
    lemma_first_place_is(l, '=', at);
    let before = l.take(at);
    let after = l.skip(at + 1);
    assert(before == name.subrange(lo, eq));
    assert(after == value.subrange(0, hi - eq - 1));
    assert forall|i: int| 0 <= i < before.len() implies before[i] == #[trigger] name[i + lo] by {}
    if blank_name {
        assert(before =~= Seq::<char>::empty());
        lemma_trimmed_keeps(before);
        assert(trimmed(before) == trimmed(name));
    } else {
        assert forall|i: int| n.1 - lo <= i < before.len() implies is_white_space(
            #[trigger] before[i],
        ) by {
            assert(before[i] == name[i + lo]);
        }
        assert(before[0] == name[n.0]);
        assert(before[n.1 - lo - 1] == name[n.1 - 1]);
        assert(trimmed(name).last() == name[n.1 - 1]);
        lemma_trimmed_is(before, 0, n.1 - lo);
        assert(trimmed(before) == trimmed(name));
    }
    if blank_value {
        lemma_trimmed_keeps(after);
    } else {
        assert(after[v.0] == value[v.0]);
        assert(trimmed(value).first() == value[v.0]);
        lemma_trimmed_is(after, v.0, v.1);
        assert(trimmed(after) == trimmed(value));
    }
    assert(l.first() == if blank_name {
        '='
    } else {
        name[n.0]
    });
}

/// A name and a value that can be written to the file as they are: without white space at their
/// ends or line feeds, the value not empty, the name without `=` and not beginning like a comment.
pub open spec fn is_clean(name: Seq<char>, value: Seq<char>) -> bool {
    &&& trimmed(name) == name
    &&& trimmed(value) == value
    &&& value.len() > 0
    &&& !name.contains('=')
    &&& !name.contains('\n')
    &&& !value.contains('\n')
    &&& name.len() > 0 ==> name.first() != '#'
}

/// A name and a value that are written to the file as `NAME=VALUE` are read back.
pub proof fn law_pair_is_read_back(name: Seq<char>, value: Seq<char>)
    requires
        is_clean(name, value),
    ensures
        file_values(name.push('=') + value) == Map::<Seq<char>, Seq<char>>::empty().insert(
            name,
            value,
        ),
{
    let line = name.push('=') + value;
    assert(!line.contains('\n')) by {
        if line.contains('\n') {
            let i = choose|i: int| 0 <= i < line.len() && line[i] == '\n';
            if i < name.len() {
                assert(name[i] == '\n');
            } else if i > name.len() {
                assert(value[i - name.len() - 1] == '\n');
            }
        }
    }
    lemma_split_whole(line, '\n');
    law_line_is_cut_at_first_equals(name, value);
    assert(seq![line].drop_last() == Seq::<Seq<char>>::empty());
    assert(said(seq![line].drop_last()) == Map::<Seq<char>, Seq<char>>::empty());
}

/// The file that has these pairs, one line for each, with a line feed between each and the next.
pub open spec fn file_of(pairs: Seq<(Seq<char>, Seq<char>)>) -> Seq<char>
    decreases pairs.len(),
{
    if pairs.len() == 0 {
        Seq::empty()
    } else {
        let line = pairs.last().0.push('=') + pairs.last().1;
        if pairs.len() == 1 {
            line
        } else {
            file_of(pairs.drop_last()).push('\n') + line
        }
    }
}

/// The map that pairs make, the later of two with one name standing for it.
pub open spec fn map_of(pairs: Seq<(Seq<char>, Seq<char>)>) -> Map<Seq<char>, Seq<char>>
    decreases pairs.len(),
{
    if pairs.len() == 0 {
        Map::empty()
    } else {
        map_of(pairs.drop_last()).insert(pairs.last().0, pairs.last().1)
    }
}

/// Pairs that are written to the file, one line for each, are read back as the map that they make.
pub proof fn law_pairs_are_read_back(pairs: Seq<(Seq<char>, Seq<char>)>)
    requires
        forall|i: int| 0 <= i < pairs.len() ==> is_clean((#[trigger] pairs[i]).0, pairs[i].1),
    ensures
        file_values(file_of(pairs)) == map_of(pairs),
    decreases pairs.len(),
{
    if pairs.len() == 0 {
        let empty = Seq::<char>::empty();
        lemma_split_whole(empty, '\n');
        lemma_trimmed_keeps(empty);
        lemma_one_silent_line(empty);
    } else {
        let (name, value) = pairs.last();
        assert(pairs[pairs.len() - 1] == pairs.last());
        law_pair_is_read_back(name, value);
        let before = pairs.drop_last();
        if pairs.len() == 1 {
            assert(map_of(before) == Map::<Seq<char>, Seq<char>>::empty());
        } else {
            assert forall|i: int| 0 <= i < before.len() implies is_clean(
                (#[trigger] before[i]).0,
                before[i].1,
            ) by {
                assert(before[i] == pairs[i]);
            }
            law_pairs_are_read_back(before);
            law_added_lines_win(file_of(before), name.push('=') + value);
            assert(map_of(before).union_prefer_right(
                Map::<Seq<char>, Seq<char>>::empty().insert(name, value),
            ) == map_of(before).insert(name, value));
        }
    }
}

/// Where no two of the pairs have one name, every name that was written is read back with its own
/// value, and no other name has one.
pub proof fn law_named_values_are_read_back(pairs: Seq<(Seq<char>, Seq<char>)>)
    requires
        forall|i: int| 0 <= i < pairs.len() ==> is_clean((#[trigger] pairs[i]).0, pairs[i].1),
        forall|i: int, j: int|
            0 <= i < j < pairs.len() ==> (#[trigger] pairs[i]).0 != (#[trigger] pairs[j]).0,
    ensures
        forall|i: int|
            0 <= i < pairs.len() ==> file_values(file_of(pairs)).contains_key(
                (#[trigger] pairs[i]).0,
            ) && file_values(file_of(pairs))[pairs[i].0] == pairs[i].1,
        forall|name: Seq<char>| #[trigger]
            file_values(file_of(pairs)).contains_key(name) ==> exists|i: int|
                0 <= i < pairs.len() && (#[trigger] pairs[i]).0 == name,
{
    law_pairs_are_read_back(pairs);
    lemma_map_of(pairs);
}

/// What the map of pairs with distinct names holds.
proof fn lemma_map_of(pairs: Seq<(Seq<char>, Seq<char>)>)
    requires
        forall|i: int, j: int|
            0 <= i < j < pairs.len() ==> (#[trigger] pairs[i]).0 != (#[trigger] pairs[j]).0,
    ensures
        forall|i: int|
            0 <= i < pairs.len() ==> map_of(pairs).contains_key((#[trigger] pairs[i]).0) && map_of(
                pairs,
            )[pairs[i].0] == pairs[i].1,
        forall|name: Seq<char>| #[trigger]
            map_of(pairs).contains_key(name) ==> exists|i: int|
                0 <= i < pairs.len() && (#[trigger] pairs[i]).0 == name,
    decreases pairs.len(),
{
    if pairs.len() > 0 {
        let before = pairs.drop_last();
        let n = before.len() as int;
        assert forall|i: int, j: int| 0 <= i < j < before.len() implies (#[trigger] before[i]).0
            != (#[trigger] before[j]).0 by {
            assert(before[i] == pairs[i] && before[j] == pairs[j]);
        }
        lemma_map_of(before);
        assert(pairs[n] == pairs.last());
        assert forall|i: int| 0 <= i < pairs.len() implies map_of(pairs).contains_key(
            (#[trigger] pairs[i]).0,
        ) && map_of(pairs)[pairs[i].0] == pairs[i].1 by {
            if i < n {
                assert(before[i] == pairs[i]);
                assert(pairs[i].0 != pairs[n].0);
            }
        }
        assert forall|name: Seq<char>| #[trigger] map_of(pairs).contains_key(name) implies exists|
            i: int,
        |
            0 <= i < pairs.len() && (#[trigger] pairs[i]).0 == name by {
            if name != pairs.last().0 {
                assert(map_of(before).contains_key(name));
                let i = choose|i: int| 0 <= i < before.len() && (#[trigger] before[i]).0 == name;
                assert(pairs[i] == before[i]);
            } else {
                assert(pairs[n].0 == name);
            }
        }
    }
}

/// A file of one line that says nothing gives no values.
proof fn lemma_one_silent_line(line: Seq<char>)
    requires
        !line.contains('\n'),
        pair(line) is None,
    ensures
        file_values(line) == Map::<Seq<char>, Seq<char>>::empty(),
{
    lemma_split_whole(line, '\n');
    assert(seq![line].drop_last() == Seq::<Seq<char>>::empty());
    assert(said(seq![line].drop_last()) == Map::<Seq<char>, Seq<char>>::empty());
}

/// A line that says nothing (a blank one, a comment, one without `=` or one with a blank value)
/// is ignored wherever it stands: as the first line of a file, between two others, or as the last.
pub proof fn law_silent_line_is_ignored(a: Seq<char>, line: Seq<char>, b: Seq<char>)
    requires
        !line.contains('\n'),
        pair(line) is None,
    ensures
        file_values(line) == Map::<Seq<char>, Seq<char>>::empty(),
        file_values(line.push('\n') + b) == file_values(b),
        file_values((a.push('\n') + line).push('\n') + b) == file_values(a.push('\n') + b),
        file_values(a.push('\n') + line) == file_values(a),
{
    let nothing = Map::<Seq<char>, Seq<char>>::empty();
    lemma_one_silent_line(line);
    law_added_lines_win(line, b);
    assert(nothing.union_prefer_right(file_values(b)) == file_values(b));
    law_added_lines_win(a, line);
    assert(file_values(a).union_prefer_right(nothing) == file_values(a));
    law_added_lines_win(a.push('\n') + line, b);
    law_added_lines_win(a, b);
}

/// No value of the file is blank, and none begins or ends with white space.
pub proof fn law_file_values_are_not_blank(text: Seq<char>, name: Seq<char>)
    requires
        file_values(text).contains_key(name),
    ensures
        file_values(text)[name].len() > 0,
        trimmed(file_values(text)[name]) == file_values(text)[name],
{
    lemma_said_not_blank(split(text, '\n'), name);
}

/// No value that lines give is blank.
proof fn lemma_said_not_blank(lines: Seq<Seq<char>>, name: Seq<char>)
    requires
        said(lines).contains_key(name),
    ensures
        said(lines)[name].len() > 0,
        trimmed(said(lines)[name]) == said(lines)[name],
    decreases lines.len(),
{
    let before = lines.drop_last();
    if said(before).contains_key(name) {
        lemma_said_not_blank(before, name);
    }
    match split_once(trimmed(lines.last()), '=') {
        Some((_, value)) => {
            law_trim_once(value);
        },
        None => {},
    }
}

/// Which lines say nothing: the blank ones, those whose first character after white space is `#`,
/// and those without `=`.
pub proof fn law_comments_and_noise_say_nothing(line: Seq<char>)
    ensures
        trimmed(line).len() == 0 ==> pair(line) is None,
        trimmed(line).len() > 0 && trimmed(line)[0] == '#' ==> pair(line) is None,
        !trimmed(line).contains('=') ==> pair(line) is None,
        !line.contains('=') ==> pair(line) is None,
{
    let l = trimmed(line);
    let bounds = lemma_trimmed(line);
    law_cut_sides_make_the_text(l, '=', Seq::empty(), Seq::empty());
    if !line.contains('=') && l.contains('=') {
        let k = choose|k: int| 0 <= k < l.len() && l[k] == '=';
        assert(line[bounds.0 + k] == '=');
    }
}

/// A comment stays one whatever follows the `#`, `=` or not, and whatever white space comes before
/// it.
pub proof fn law_comment_is_ignored(blank: Seq<char>, rest: Seq<char>)
    requires
        forall|i: int| 0 <= i < blank.len() ==> is_white_space(#[trigger] blank[i]),
        !blank.contains('\n'),
        !rest.contains('\n'),
    ensures
        file_values(blank.push('#') + rest) == Map::<Seq<char>, Seq<char>>::empty(),
{
    let line = blank.push('#') + rest;
    let at = blank.len() as int;
    assert(line[at] == '#' && !is_white_space('#'));
    let bounds = lemma_trimmed(line);
    assert(bounds.0 <= at) by {
        if bounds.0 > at {
            assert(is_white_space(line[at]));
        }
    }
    assert(bounds.1 > at) by {
        if bounds.1 <= at {
            assert(is_white_space(line[at]));
        }
    }
    assert(bounds.0 == at) by {
        if bounds.0 < at {
            assert(trimmed(line).first() == line[bounds.0]);
            assert(line[bounds.0] == blank[bounds.0]);
        }
    }
    assert(trimmed(line)[0] == '#');
    law_comments_and_noise_say_nothing(line);
    assert(!line.contains('\n')) by {
        if line.contains('\n') {
            let i = choose|i: int| 0 <= i < line.len() && line[i] == '\n';
            if i < at {
                assert(blank[i] == '\n');
            } else if i > at {
                assert(rest[i - at - 1] == '\n');
            }
        }
    }
    lemma_one_silent_line(line);
}

/// A file of one line gives what the line says, and nothing else: with no `=` no value; with one,
/// the name before the first `=` and the value after it, both without the white space around them,
/// unless the value is blank or the line begins with `#`.
pub proof fn law_one_line_gives_one_value(name: Seq<char>, value: Seq<char>, noise: Seq<char>)
    requires
        !name.contains('='),
        !name.contains('\n'),
        !value.contains('\n'),
        !noise.contains('='),
        !noise.contains('\n'),
    ensures
        file_values(noise) == Map::<Seq<char>, Seq<char>>::empty(),
        trimmed(value).len() == 0 ==> file_values(name.push('=') + value) == Map::<
            Seq<char>,
            Seq<char>,
        >::empty(),
        trimmed(name).len() > 0 && trimmed(name)[0] == '#' ==> file_values(name.push('=') + value)
            == Map::<Seq<char>, Seq<char>>::empty(),
        trimmed(value).len() > 0 && !(trimmed(name).len() > 0 && trimmed(name)[0] == '#')
            ==> file_values(name.push('=') + value) == Map::<Seq<char>, Seq<char>>::empty().insert(
            trimmed(name),
            trimmed(value),
        ),
{
    law_comments_and_noise_say_nothing(noise);
    lemma_one_silent_line(noise);
    let line = name.push('=') + value;
    assert(!line.contains('\n')) by {
        if line.contains('\n') {
            let i = choose|i: int| 0 <= i < line.len() && line[i] == '\n';
            if i < name.len() {
                assert(name[i] == '\n');
            } else if i > name.len() {
                assert(value[i - name.len() - 1] == '\n');
            }
        }
    }
    law_line_is_cut_at_first_equals(name, value);
    lemma_split_whole(line, '\n');
    assert(seq![line].drop_last() == Seq::<Seq<char>>::empty());
    assert(said(seq![line].drop_last()) == Map::<Seq<char>, Seq<char>>::empty());
}

} // verus!
