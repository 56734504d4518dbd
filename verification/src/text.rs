//! Text as sequences of characters.

use vstd::prelude::*;

verus! {

/// `String::push` appends one character.
pub assume_specification[ String::push ](s: &mut String, c: char)
    ensures
        final(s)@ == old(s)@.push(c),
;

/// `str`'s `==` compares the characters.
pub assume_specification[ <str as PartialEq>::eq ](a: &str, b: &str) -> (r: bool)
    ensures
        r == (a@ == b@),
;

/// Whether `a` and `b` hold the same text.
pub fn same_text(a: &str, b: &str) -> (r: bool)
    ensures
        r == (a@ == b@),
{
    a.eq(b)
}

/// The characters of `s`, in order.
pub fn chars_of(s: &str) -> (chars: Vec<char>)
    ensures
        chars@ == s@,
{
    let mut chars: Vec<char> = Vec::new();
    for c in iter: s.chars()
        invariant
            chars@ == iter.seq().take(iter.index()),
            iter.seq() == s@,
    {
        chars.push(c);
    }
    chars
}

/// Whether `c` occurs in `s`.
pub fn has_char(s: &str, c: char) -> (found: bool)
    ensures
        found == s@.contains(c),
{
    let mut found = false;
    for x in iter: s.chars()
        invariant
            found == iter.seq().take(iter.index()).contains(c),
            iter.seq() == s@,
    {
        proof {
            let before = iter.seq().take(iter.index());
            let after = iter.seq().take(iter.index() + 1);
            assert(after == before.push(x));
            assert(after.contains(c) <==> before.contains(c) || x == c) by {
                if before.contains(c) {
                    let k = choose|k: int| 0 <= k < before.len() && before[k] == c;
                    assert(after[k] == c);
                }
                if x == c {
                    assert(after[after.len() - 1] == c);
                }
            }
        }
        if x == c {
            found = true;
        }
    }
    assert(s@.take(s@.len() as int) =~= s@);
    found
}

/// The text that `chars` spell.
pub fn string_of(chars: &Vec<char>) -> (s: String)
    ensures
        s@ == chars@,
{
    let mut s = String::new();
    let mut i: usize = 0;
    while i < chars.len()
        invariant
            i <= chars.len(),
            s@ == chars@.take(i as int),
        decreases chars.len() - i,
    {
        s.push(chars[i]);
        i = i + 1;
    }
    s
}

/// The texts that the strings of `v` hold.
pub open spec fn texts(v: Seq<String>) -> Seq<Seq<char>> {
    Seq::new(v.len(), |i: int| v[i]@)
}

/// The texts that the character vectors of `v` hold.
pub open spec fn rows(v: Seq<Vec<char>>) -> Seq<Seq<char>> {
    Seq::new(v.len(), |i: int| v[i]@)
}

/// Whether `c` has the Unicode property `White_Space`.
pub open spec fn is_whitespace(c: char) -> bool {
    let n = c as u32;
    ||| 0x09 <= n <= 0x0d
    ||| n == 0x20
    ||| n == 0x85
    ||| n == 0xa0
    ||| n == 0x1680
    ||| 0x2000 <= n <= 0x200a
    ||| n == 0x2028
    ||| n == 0x2029
    ||| n == 0x202f
    ||| n == 0x205f
    ||| n == 0x3000
}

/// Whether `c` has the Unicode property `White_Space`.
pub fn is_space(c: char) -> (r: bool)
    ensures
        r == is_whitespace(c),
{
    let n: u32 = c as u32;
    (0x09 <= n && n <= 0x0d) || n == 0x20 || n == 0x85 || n == 0xa0 || n == 0x1680 || (0x2000 <= n
        && n <= 0x200a) || n == 0x2028 || n == 0x2029 || n == 0x202f || n == 0x205f || n == 0x3000
}

/// Whether every character of `s` is white space; so is the empty text.
pub open spec fn is_blank(s: Seq<char>) -> bool {
    forall|i: int| 0 <= i < s.len() ==> is_whitespace(#[trigger] s[i])
}

/// `s` without its leading white space.
pub open spec fn trim_start(s: Seq<char>) -> Seq<char>
    decreases s.len(),
{
    if s.len() > 0 && is_whitespace(s[0]) {
        trim_start(s.drop_first())
    } else {
        s
    }
}

/// `s` without its trailing white space.
pub open spec fn trim_end(s: Seq<char>) -> Seq<char>
    decreases s.len(),
{
    if s.len() > 0 && is_whitespace(s.last()) {
        trim_end(s.drop_last())
    } else {
        s
    }
}

/// `s` without leading and trailing white space.
pub open spec fn trimmed(s: Seq<char>) -> Seq<char> {
    trim_end(trim_start(s))
}

/// Index of the first `c` in `s`, or the length of `s` where it has none.
pub open spec fn index_of(s: Seq<char>, c: char) -> nat
    decreases s.len(),
{
    if s.len() == 0 || s[0] == c {
        0
    } else {
        1 + index_of(s.drop_first(), c)
    }
}

/// The pieces of `s` between the occurrences of `separator`; a text without
/// one is a single piece, and so is the empty text.
pub open spec fn split(s: Seq<char>, separator: char) -> Seq<Seq<char>>
    decreases s.len(),
{
    let end = index_of(s, separator);
    if end >= s.len() {
        seq![s]
    } else {
        seq![s.take(end as int)] + split(s.skip(end as int + 1), separator)
    }
}

/// `line` without the carriage return that ends it, if one does.
pub open spec fn strip_cr(line: Seq<char>) -> Seq<char> {
    if line.len() > 0 && line.last() == '\r' {
        line.drop_last()
    } else {
        line
    }
}

/// The lines of `s`: a line ends at a line feed, which is dropped together
/// with a carriage return just before it; what follows the last line feed is
/// a line of its own unless it is empty.
pub open spec fn lines(s: Seq<char>) -> Seq<Seq<char>>
    decreases s.len(),
{
    if s.len() == 0 {
        Seq::empty()
    } else {
        let end = index_of(s, '\n');
        if end >= s.len() {
            seq![s]
        } else {
            seq![strip_cr(s.take(end as int))] + lines(s.skip(end as int + 1))
        }
    }
}

/// The first `c` of `s` is at `n` once no earlier character is one.
pub proof fn lemma_index_of(s: Seq<char>, c: char, n: int)
    requires
        0 <= n <= s.len(),
        forall|k: int| 0 <= k < n ==> s[k] != c,
        n == s.len() || s[n] == c,
    ensures
        index_of(s, c) == n,
    decreases n,
{
    if n > 0 {
        lemma_index_of(s.drop_first(), c, n - 1);
    }
}

/// Dropping white space from the front of `s` leaves what trimming its start
/// leaves, as long as white space is all that was dropped.
pub proof fn lemma_trim_start_skip(s: Seq<char>, n: int)
    requires
        0 <= n <= s.len(),
        forall|k: int| 0 <= k < n ==> is_whitespace(#[trigger] s[k]),
    ensures
        trim_start(s) == trim_start(s.skip(n)),
    decreases n,
{
    if n > 0 {
        lemma_trim_start_skip(s.drop_first(), n - 1);
        assert(s.drop_first().skip(n - 1) =~= s.skip(n));
    } else {
        assert(s.skip(0) =~= s);
    }
}

/// The same for the end of `s`.
pub proof fn lemma_trim_end_take(s: Seq<char>, n: int)
    requires
        0 <= n <= s.len(),
        forall|k: int| n <= k < s.len() ==> is_whitespace(#[trigger] s[k]),
    ensures
        trim_end(s) == trim_end(s.take(n)),
    decreases s.len() - n,
{
    if n < s.len() {
        lemma_trim_end_take(s.drop_last(), n);
        assert(s.drop_last().take(n) =~= s.take(n));
    } else {
        assert(s.take(n) =~= s);
    }
}

/// The characters of `chars` from `from` up to `to`.
pub fn slice_of(chars: &Vec<char>, from: usize, to: usize) -> (part: Vec<char>)
    requires
        from <= to <= chars.len(),
    ensures
        part@ == chars@.subrange(from as int, to as int),
{
    let mut part: Vec<char> = Vec::new();
    let mut i: usize = from;
    while i < to
        invariant
            from <= i <= to <= chars.len(),
            part@ == chars@.subrange(from as int, i as int),
        decreases to - i,
    {
        part.push(chars[i]);
        i = i + 1;
    }
    part
}

/// `chars` without leading and trailing white space.
pub fn trim(chars: &Vec<char>) -> (r: Vec<char>)
    ensures
        r@ == trimmed(chars@),
{
    let mut from: usize = 0;
    while from < chars.len() && is_space(chars[from])
        invariant
            from <= chars.len(),
            forall|k: int| 0 <= k < from ==> is_whitespace(#[trigger] chars@[k]),
        decreases chars.len() - from,
    {
        from = from + 1;
    }
    let mut to: usize = chars.len();
    while to > from && is_space(chars[to - 1])
        invariant
            from <= to <= chars.len(),
            forall|k: int| to <= k < chars.len() ==> is_whitespace(#[trigger] chars@[k]),
        decreases to,
    {
        to = to - 1;
    }
    proof {
        let s = chars@;
        let rest = s.skip(from as int);
        lemma_trim_start_skip(s, from as int);
        assert(trim_start(rest) == rest);
        assert forall|k: int| to - from <= k < rest.len() implies is_whitespace(
            #[trigger] rest[k],
        ) by {
            assert(rest[k] == s[k + from]);
        }
        lemma_trim_end_take(rest, to - from);
        let kept = rest.take(to - from);
        assert(kept =~= s.subrange(from as int, to as int));
        assert(trim_end(kept) == kept);
    }
    slice_of(chars, from, to)
}

/// Whether every character of `chars` is white space.
pub fn blank(chars: &Vec<char>) -> (r: bool)
    ensures
        r == is_blank(chars@),
{
    let mut i: usize = 0;
    while i < chars.len()
        invariant
            i <= chars.len(),
            forall|k: int| 0 <= k < i ==> is_whitespace(#[trigger] chars@[k]),
        decreases chars.len() - i,
    {
        if !is_space(chars[i]) {
            return false;
        }
        i = i + 1;
    }
    true
}

/// The lines of `text`.
pub fn lines_of(text: &str) -> (out: Vec<Vec<char>>)
    ensures
        rows(out@) == lines(text@),
{
    let chars = chars_of(text);
    let mut out: Vec<Vec<char>> = Vec::new();
    let mut start: usize = 0;
    let mut pos: usize = 0;
    assert(chars@.skip(0) =~= chars@);
    assert(rows(out@) =~= Seq::<Seq<char>>::empty());
    while pos < chars.len()
        invariant
            start <= pos <= chars.len(),
            forall|k: int| start <= k < pos ==> chars@[k] != '\n',
            lines(chars@) == rows(out@) + lines(chars@.skip(start as int)),
        decreases chars.len() - pos,
    {
        if chars[pos] == '\n' {
            let end = if pos > start && chars[pos - 1] == '\r' {
                pos - 1
            } else {
                pos
            };
            let line = slice_of(&chars, start, end);
            proof {
                let rest = chars@.skip(start as int);
                lemma_index_of(rest, '\n', pos - start);
                assert(rest.take(pos - start) =~= chars@.subrange(start as int, pos as int));
                assert(strip_cr(rest.take(pos - start)) =~= line@);
                assert(rest.skip(pos - start + 1) =~= chars@.skip(pos + 1));
                assert(rows(out@).push(line@) + lines(chars@.skip(pos + 1))
                    =~= rows(out@) + (seq![line@] + lines(chars@.skip(pos + 1))));
            }
            let ghost before = rows(out@);
            out.push(line);
            assert(rows(out@) =~= before.push(line@));
            start = pos + 1;
        }
        pos = pos + 1;
    }
    if start < chars.len() {
        let line = slice_of(&chars, start, chars.len());
        proof {
            let rest = chars@.skip(start as int);
            lemma_index_of(rest, '\n', rest.len() as int);
            assert(rest =~= line@);
            assert(lines(rest) =~= seq![line@]);
        }
        let ghost before = rows(out@);
        out.push(line);
        assert(rows(out@) =~= before.push(line@));
    } else {
        assert(lines(chars@.skip(start as int)) =~= Seq::<Seq<char>>::empty());
    }
    out
}

/// The pieces of `text` between the occurrences of `separator`.
pub fn split_at(text: &str, separator: char) -> (out: Vec<Vec<char>>)
    ensures
        rows(out@) == split(text@, separator),
{
    let chars = chars_of(text);
    let mut out: Vec<Vec<char>> = Vec::new();
    let mut start: usize = 0;
    let mut pos: usize = 0;
    assert(chars@.skip(0) =~= chars@);
    assert(rows(out@) =~= Seq::<Seq<char>>::empty());
    while pos < chars.len()
        invariant
            start <= pos <= chars.len(),
            forall|k: int| start <= k < pos ==> chars@[k] != separator,
            split(chars@, separator) == rows(out@) + split(chars@.skip(start as int), separator),
        decreases chars.len() - pos,
    {
        if chars[pos] == separator {
            let piece = slice_of(&chars, start, pos);
            proof {
                let rest = chars@.skip(start as int);
                lemma_index_of(rest, separator, pos - start);
                assert(rest.take(pos - start) =~= piece@);
                assert(rest.skip(pos - start + 1) =~= chars@.skip(pos + 1));
                assert(rows(out@).push(piece@) + split(chars@.skip(pos + 1), separator) =~= rows(
                    out@,
                ) + (seq![piece@] + split(chars@.skip(pos + 1), separator)));
            }
            let ghost before = rows(out@);
            out.push(piece);
            assert(rows(out@) =~= before.push(piece@));
            start = pos + 1;
        }
        pos = pos + 1;
    }
    let piece = slice_of(&chars, start, chars.len());
    proof {
        let rest = chars@.skip(start as int);
        lemma_index_of(rest, separator, rest.len() as int);
        assert(rest =~= piece@);
        assert(split(rest, separator) =~= seq![piece@]);
    }
    let ghost before = rows(out@);
    out.push(piece);
    assert(rows(out@) =~= before.push(piece@));
    out
}

} // verus!
