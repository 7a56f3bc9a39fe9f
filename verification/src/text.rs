//! Character-level helpers for attribute names, patterns and command output.
//!
//! Every string is modelled by its sequence of characters (`Seq<char>`), the
//! view that `vstd` gives to `str` and `String`.

use vstd::prelude::*;
use vstd::string::StrSliceExecFns;
use vstd::string::StringExecFns;

verus! {

/// The characters of `s`, in order.
pub fn chars_of(s: &str) -> (chars: Vec<char>)
    ensures
        chars@ == s@,
{
    let mut chars: Vec<char> = Vec::new();
    for c in it: s.chars()
        invariant
            it.seq() == s@,
            chars@ == s@.take(it.index()),
    {
        chars.push(c);
    }
    chars
}

/// Whether two character vectors hold the same text.
pub fn same_chars(a: &Vec<char>, b: &Vec<char>) -> (same: bool)
    ensures
        same == (a@ == b@),
{
    if a.len() != b.len() {
        return false;
    }
    let mut i: usize = 0;
    while i < a.len()
        invariant
            i <= a.len(),
            a.len() == b.len(),
            a@.take(i as int) == b@.take(i as int),
        decreases a.len() - i,
    {
        if a[i] != b[i] {
            return false;
        }
        proof {
            assert(a@.take(i + 1) =~= a@.take(i as int).push(a@[i as int]));
            assert(b@.take(i + 1) =~= b@.take(i as int).push(b@[i as int]));
        }
        i += 1;
    }
    proof {
        assert(a@.take(i as int) =~= a@);
        assert(b@.take(i as int) =~= b@);
    }
    true
}

/// Whether two strings hold the same text.
pub fn same_text(a: &str, b: &str) -> (same: bool)
    ensures
        same == (a@ == b@),
{
    let left = chars_of(a);
    let right = chars_of(b);
    same_chars(&left, &right)
}

/// Whether `chars` begins with `prefix`.
pub fn has_prefix(chars: &Vec<char>, prefix: &Vec<char>) -> (found: bool)
    ensures
        found == prefix@.is_prefix_of(chars@),
{
    if prefix.len() > chars.len() {
        return false;
    }
    let mut i: usize = 0;
    while i < prefix.len()
        invariant
            i <= prefix.len() <= chars.len(),
            forall|k: int| 0 <= k < i ==> chars@[k] == prefix@[k],
        decreases prefix.len() - i,
    {
        if chars[i] != prefix[i] {
            proof {
                assert(chars@.subrange(0, prefix@.len() as int)[i as int] == chars@[i as int]);
            }
            return false;
        }
        i += 1;
    }
    proof {
        assert(chars@.subrange(0, prefix@.len() as int) =~= prefix@);
    }
    true
}

/// Whether the string `s` begins with `prefix`.
pub fn starts_with(s: &str, prefix: &str) -> (found: bool)
    ensures
        found == prefix@.is_prefix_of(s@),
{
    let chars = chars_of(s);
    let wanted = chars_of(prefix);
    has_prefix(&chars, &wanted)
}

/// Whether `c` occurs in `chars`.
pub fn has_char(chars: &Vec<char>, c: char) -> (found: bool)
    ensures
        found == chars@.contains(c),
{
    let mut i: usize = 0;
    while i < chars.len()
        invariant
            i <= chars.len(),
            forall|k: int| 0 <= k < i ==> chars@[k] != c,
        decreases chars.len() - i,
    {
        if chars[i] == c {
            return true;
        }
        i += 1;
    }
    false
}

/// The dot-separated segments of a name: reading left to right, every `.`
/// closes the current segment and opens a new one. The empty name has one
/// empty segment, and a name with `n` dots has `n + 1` segments.
pub open spec fn segments(s: Seq<char>) -> Seq<Seq<char>>
    decreases s.len(),
{
    if s.len() == 0 {
        seq![Seq::<char>::empty()]
    } else {
        let before = segments(s.drop_last());
        if s.last() == '.' {
            before.push(Seq::<char>::empty())
        } else {
            before.update(before.len() - 1, before.last().push(s.last()))
        }
    }
}

/// The texts held by a vector of character vectors.
pub open spec fn rows(v: Seq<Vec<char>>) -> Seq<Seq<char>> {
    Seq::new(v.len(), |i: int| v[i]@)
}

/// The texts held by a vector of strings.
pub open spec fn texts(v: Seq<String>) -> Seq<Seq<char>> {
    Seq::new(v.len(), |i: int| v[i]@)
}

/// The texts of a vector that grew by one string.
pub proof fn lemma_texts_push(v: Seq<String>, s: String)
    ensures
        texts(v.push(s)) == texts(v).push(s@),
{
    assert(texts(v.push(s)) =~= texts(v).push(s@));
}

/// A name always has at least one segment.
pub proof fn lemma_segments_nonempty(s: Seq<char>)
    ensures
        segments(s).len() >= 1,
    decreases s.len(),
{
    if s.len() > 0 {
        lemma_segments_nonempty(s.drop_last());
    }
}

/// How the segments grow when one character is appended.
pub proof fn lemma_segments_push(s: Seq<char>, c: char)
    ensures
        segments(s).len() >= 1,
        c == '.' ==> segments(s.push(c)) == segments(s).push(Seq::<char>::empty()),
        c != '.' ==> segments(s.push(c)) == segments(s).update(
            segments(s).len() - 1,
            segments(s).last().push(c),
        ),
{
    lemma_segments_nonempty(s);
    assert(s.push(c).drop_last() =~= s);
}

/// Splits a name on `.`.
pub fn split_segments(s: &str) -> (parts: Vec<Vec<char>>)
    ensures
        rows(parts@) == segments(s@),
{
    let chars = chars_of(s);
    let mut parts: Vec<Vec<char>> = Vec::new();
    let mut current: Vec<char> = Vec::new();
    let mut i: usize = 0;
    while i < chars.len()
        invariant
            i <= chars.len(),
            chars@ == s@,
            segments(s@.take(i as int)) == rows(parts@).push(current@),
        decreases chars.len() - i,
    {
        let c = chars[i];
        proof {
            lemma_segments_push(s@.take(i as int), c);
            assert(s@.take(i + 1) =~= s@.take(i as int).push(c));
        }
        let ghost before = rows(parts@).push(current@);
        if c == '.' {
            parts.push(current);
            current = Vec::new();
            proof {
                assert(rows(parts@).push(current@) =~= before.push(Seq::<char>::empty()));
            }
        } else {
            current.push(c);
            proof {
                assert(rows(parts@).push(current@) =~= before.update(
                    before.len() - 1,
                    before.last().push(c),
                ));
            }
        }
        i += 1;
    }
    proof {
        assert(s@.take(i as int) =~= s@);
    }
    let ghost done = rows(parts@).push(current@);
    parts.push(current);
    proof {
        assert(rows(parts@) =~= done);
    }
    parts
}

/// The segments of a path written as one name, with `.` between them.
pub open spec fn joined(parts: Seq<Seq<char>>) -> Seq<char>
    decreases parts.len(),
{
    if parts.len() == 0 {
        Seq::<char>::empty()
    } else if parts.len() == 1 {
        parts[0]
    } else {
        joined(parts.drop_last()) + seq!['.'] + parts.last()
    }
}

/// Joining the segments of a name gives the name back.
pub proof fn lemma_joined_segments(s: Seq<char>)
    ensures
        joined(segments(s)) == s,
    decreases s.len(),
{
    if s.len() == 0 {
        assert(joined(segments(s)) =~= s);
    } else {
        let shorter = s.drop_last();
        let c = s.last();
        let before = segments(shorter);
        lemma_joined_segments(shorter);
        lemma_segments_nonempty(shorter);
        assert(s =~= shorter.push(c));
        if c == '.' {
            let after = before.push(Seq::<char>::empty());
            assert(after.drop_last() =~= before);
            assert(joined(after) =~= s);
        } else {
            let after = before.update(before.len() - 1, before.last().push(c));
            if before.len() == 1 {
                assert(joined(after) =~= s);
            } else {
                assert(after.drop_last() =~= before.drop_last());
                assert(joined(after) =~= s);
            }
        }
    }
}

/// Text without a dot, appended to a name, goes to the name's last segment.
pub proof fn lemma_segments_append_plain(s: Seq<char>, tail: Seq<char>)
    requires
        !tail.contains('.'),
    ensures
        segments(s).len() >= 1,
        segments(s + tail) == segments(s).update(
            segments(s).len() - 1,
            segments(s).last() + tail,
        ),
    decreases tail.len(),
{
    lemma_segments_nonempty(s);
    let parts = segments(s);
    if tail.len() == 0 {
        assert(s + tail =~= s);
        assert(parts.last() + tail =~= parts.last());
        assert(parts.update(parts.len() - 1, parts.last()) =~= parts);
    } else {
        let shorter = tail.drop_last();
        let c = tail.last();
        assert(tail[tail.len() - 1] == c);
        assert(c != '.');
        assert forall|i: int| 0 <= i < shorter.len() implies shorter[i] != '.' by {
            assert(tail[i] == shorter[i]);
        }
        lemma_segments_append_plain(s, shorter);
        lemma_segments_push(s + shorter, c);
        assert(s + tail =~= (s + shorter).push(c));
        assert(parts.last() + tail =~= (parts.last() + shorter).push(c));
        assert(segments(s + tail) =~= parts.update(parts.len() - 1, parts.last() + tail));
    }
}

/// Splitting a joined path gives the path back, where the path is not empty
/// and no segment of it holds a dot.
pub proof fn lemma_segments_joined(path: Seq<Seq<char>>)
    requires
        path.len() > 0,
        forall|i: int| 0 <= i < path.len() ==> !(#[trigger] path[i]).contains('.'),
    ensures
        segments(joined(path)) == path,
    decreases path.len(),
{
    let empty = Seq::<char>::empty();
    if path.len() == 1 {
        lemma_segments_append_plain(empty, path[0]);
        assert(empty + path[0] =~= path[0]);
        assert(segments(empty) =~= seq![empty]);
        assert(segments(joined(path)) =~= path);
    } else {
        let earlier = path.drop_last();
        assert forall|i: int| 0 <= i < earlier.len() implies !(#[trigger] earlier[i]).contains(
            '.',
        ) by {
            assert(earlier[i] == path[i]);
        }
        lemma_segments_joined(earlier);
        let stem = joined(earlier);
        lemma_segments_push(stem, '.');
        lemma_segments_append_plain(stem.push('.'), path.last());
        assert(joined(path) =~= stem.push('.') + path.last());
        assert(empty + path.last() =~= path.last());
        assert(segments(joined(path)) =~= path);
    }
}

/// Writes a path as one name, with `.` between its segments.
pub fn join_path(parts: &Vec<String>) -> (name: String)
    ensures
        name@ == joined(texts(parts@)),
{
    let mut name = String::new();
    let mut i: usize = 0;
    while i < parts.len()
        invariant
            i <= parts.len(),
            name@ == joined(texts(parts@).take(i as int)),
        decreases parts.len() - i,
    {
        let ghost upto = texts(parts@).take(i + 1);
        proof {
            assert(upto.drop_last() =~= texts(parts@).take(i as int));
            assert(upto.last() == parts@[i as int]@);
            reveal_strlit(".");
            assert("."@ =~= seq!['.']);
        }
        if i > 0 {
            name.append(".");
            name.append(parts[i].as_str());
        } else {
            name.append(parts[i].as_str());
            proof {
                assert(name@ =~= parts@[0]@);
            }
        }
        i += 1;
    }
    proof {
        assert(texts(parts@).take(i as int) =~= texts(parts@));
    }
    name
}

/// Lexicographic order on texts, character by character by code point; a
/// proper prefix comes before the longer text. This is the order in which
/// `str` and `String` compare.
pub open spec fn precedes(a: Seq<char>, b: Seq<char>) -> bool
    decreases a.len(),
{
    if b.len() == 0 {
        false
    } else if a.len() == 0 {
        true
    } else if a[0] != b[0] {
        a[0] < b[0]
    } else {
        precedes(a.drop_first(), b.drop_first())
    }
}

/// No text comes before itself.
pub proof fn lemma_precedes_irreflexive(a: Seq<char>)
    ensures
        !precedes(a, a),
    decreases a.len(),
{
    if a.len() > 0 {
        lemma_precedes_irreflexive(a.drop_first());
    }
}

/// The order is transitive.
pub proof fn lemma_precedes_transitive(a: Seq<char>, b: Seq<char>, c: Seq<char>)
    requires
        precedes(a, b),
        precedes(b, c),
    ensures
        precedes(a, c),
    decreases a.len(),
{
    if a.len() > 0 && b.len() > 0 && c.len() > 0 {
        if a[0] == b[0] && b[0] == c[0] {
            lemma_precedes_transitive(a.drop_first(), b.drop_first(), c.drop_first());
        }
    }
}

/// Of two different texts, one comes before the other.
pub proof fn lemma_precedes_total(a: Seq<char>, b: Seq<char>)
    ensures
        a == b || precedes(a, b) || precedes(b, a),
    decreases a.len(),
{
    if a.len() == 0 || b.len() == 0 {
        if a.len() == 0 && b.len() == 0 {
            assert(a =~= b);
        }
    } else if a[0] == b[0] {
        lemma_precedes_total(a.drop_first(), b.drop_first());
        if a.drop_first() == b.drop_first() {
            assert(a =~= seq![a[0]] + a.drop_first());
            assert(b =~= seq![b[0]] + b.drop_first());
        }
    }
}

/// Whether `a` comes before `b` in lexicographic order.
pub fn chars_precede(a: &Vec<char>, b: &Vec<char>) -> (before: bool)
    ensures
        before == precedes(a@, b@),
{
    let mut i: usize = 0;
    proof {
        assert(a@.skip(0) =~= a@);
        assert(b@.skip(0) =~= b@);
    }
    while i < a.len() && i < b.len()
        invariant
            i <= a.len(),
            i <= b.len(),
            precedes(a@, b@) == precedes(a@.skip(i as int), b@.skip(i as int)),
        decreases a.len() - i,
    {
        proof {
            assert(a@.skip(i as int).drop_first() =~= a@.skip(i + 1));
            assert(b@.skip(i as int).drop_first() =~= b@.skip(i + 1));
            assert(a@.skip(i as int)[0] == a@[i as int]);
            assert(b@.skip(i as int)[0] == b@[i as int]);
        }
        let x = a[i];
        let y = b[i];
        if x != y {
            return x < y;
        }
        i += 1;
    }
    i < b.len()
}

/// Whether the string `a` comes before the string `b`.
pub fn text_precedes(a: &str, b: &str) -> (before: bool)
    ensures
        before == precedes(a@, b@),
{
    let left = chars_of(a);
    let right = chars_of(b);
    chars_precede(&left, &right)
}

/// What is stripped from both ends of a text.
#[derive(Clone, Copy, Debug, PartialEq, Eq)]
pub enum Strip {
    /// Unicode white space.
    Whitespace,
    /// The double quote.
    Quotes,
}

/// The characters with the Unicode property `White_Space`.
pub open spec fn is_whitespace(c: char) -> bool {
    let code = c as u32;
    ||| 0x09 <= code <= 0x0D
    ||| code == 0x20
    ||| code == 0x85
    ||| code == 0xA0
    ||| code == 0x1680
    ||| 0x2000 <= code <= 0x200A
    ||| code == 0x2028
    ||| code == 0x2029
    ||| code == 0x202F
    ||| code == 0x205F
    ||| code == 0x3000
}

impl Strip {
    /// Whether `c` is a character that this choice strips.
    pub open spec fn strips(self, c: char) -> bool {
        match self {
            Strip::Whitespace => is_whitespace(c),
            Strip::Quotes => c == '"',
        }
    }

    /// Tests one character.
    pub fn test(&self, c: char) -> (stripped: bool)
        ensures
            stripped == self.strips(c),
    {
        match self {
            Strip::Whitespace => {
                let code: u32 = c as u32;
                (0x09 <= code && code <= 0x0D) || code == 0x20 || code == 0x85 || code == 0xA0
                    || code == 0x1680 || (0x2000 <= code && code <= 0x200A) || code == 0x2028
                    || code == 0x2029 || code == 0x202F || code == 0x205F || code == 0x3000
            },
            Strip::Quotes => c == '"',
        }
    }
}

/// `s` without its leading stripped characters.
pub open spec fn strip_start(s: Seq<char>, what: Strip) -> Seq<char>
    decreases s.len(),
{
    if s.len() > 0 && what.strips(s.first()) {
        strip_start(s.drop_first(), what)
    } else {
        s
    }
}

/// `s` without its trailing stripped characters.
pub open spec fn strip_end(s: Seq<char>, what: Strip) -> Seq<char>
    decreases s.len(),
{
    if s.len() > 0 && what.strips(s.last()) {
        strip_end(s.drop_last(), what)
    } else {
        s
    }
}

/// `s` without its leading and trailing stripped characters.
pub open spec fn stripped(s: Seq<char>, what: Strip) -> Seq<char> {
    strip_end(strip_start(s, what), what)
}

/// Narrows the range `start..end` of `chars` until neither end is a stripped
/// character.
pub fn strip_bounds(chars: &Vec<char>, start: usize, end: usize, what: Strip) -> (bounds: (
    usize,
    usize,
))
    requires
        start <= end <= chars.len(),
    ensures
        start <= bounds.0 <= bounds.1 <= end,
        chars@.subrange(bounds.0 as int, bounds.1 as int) == stripped(
            chars@.subrange(start as int, end as int),
            what,
        ),
{
    let mut from: usize = start;
    while from < end && what.test(chars[from])
        invariant
            start <= from <= end <= chars.len(),
            strip_start(chars@.subrange(start as int, end as int), what) == strip_start(
                chars@.subrange(from as int, end as int),
                what,
            ),
        decreases end - from,
    {
        proof {
            assert(chars@.subrange(from as int, end as int).drop_first() =~= chars@.subrange(
                from + 1,
                end as int,
            ));
        }
        from += 1;
    }
    let mut to: usize = end;
    while from < to && what.test(chars[to - 1])
        invariant
            start <= from <= to <= end <= chars.len(),
            strip_start(chars@.subrange(start as int, end as int), what) == chars@.subrange(
                from as int,
                end as int,
            ),
            strip_end(chars@.subrange(from as int, end as int), what) == strip_end(
                chars@.subrange(from as int, to as int),
                what,
            ),
        decreases to - from,
    {
        proof {
            assert(chars@.subrange(from as int, to as int).drop_last() =~= chars@.subrange(
                from as int,
                to - 1,
            ));
        }
        to -= 1;
    }
    (from, to)
}

/// `s` without its leading and trailing stripped characters.
pub fn strip(s: &str, what: Strip) -> (rest: String)
    ensures
        rest@ == stripped(s@, what),
{
    let chars = chars_of(s);
    let (from, to) = strip_bounds(&chars, 0, chars.len(), what);
    proof {
        assert(chars@.subrange(0, chars@.len() as int) =~= s@);
    }
    String::from_str(s.substring_char(from, to))
}

/// What follows `prefix` in `s`, where `s` begins with it.
pub fn without_prefix(s: &str, prefix: &str) -> (rest: Option<String>)
    ensures
        prefix@.is_prefix_of(s@) ==> (rest matches Some(tail) && tail@ == s@.skip(
            prefix@.len() as int,
        )),
        !prefix@.is_prefix_of(s@) ==> rest is None,
{
    let chars = chars_of(s);
    let wanted = chars_of(prefix);
    if has_prefix(&chars, &wanted) {
        Some(String::from_str(s.substring_char(wanted.len(), chars.len())))
    } else {
        None
    }
}

} // verus!
