//! Text as sequences of characters.
//!
//! Every rule of the player that looks inside a piece of text is written over
//! characters: a `&str` is opened into a `Vec<char>`, worked on, and closed into
//! a `String` again. Positions that are byte offsets in UTF-8 are kept as such,
//! through [`byte_len`].

use vstd::prelude::*;

verus! {

/// `String::push` appends one character.
pub assume_specification[ String::push ](s: &mut String, c: char)
    ensures
        final(s)@ == old(s)@.push(c),
;

/// The characters of `s`, in order.
pub fn chars_of(s: &str) -> (r: Vec<char>)
    ensures
        r@ == s@,
{
    let mut out: Vec<char> = Vec::new();
    for c in it: s.chars()
        invariant
            it.seq() == s@,
            out@ == s@.take(it.index() as int),
    {
        out.push(c);
    }
    assert(s@.take(s@.len() as int) == s@);
    out
}

/// The text made of `cs`.
pub fn string_of(cs: &[char]) -> (r: String)
    ensures
        r@ == cs@,
{
    let mut out = String::new();
    let mut i: usize = 0;
    while i < cs.len()
        invariant
            i <= cs@.len(),
            out@ == cs@.take(i as int),
        decreases cs@.len() - i,
    {
        out.push(cs[i]);
        i += 1;
    }
    assert(cs@.take(cs@.len() as int) == cs@);
    out
}


/// The characters of an optional text.
pub open spec fn opt(s: Option<String>) -> Option<Seq<char>> {
    match s {
        Some(x) => Some(x@),
        None => None,
    }
}

/// Whether two texts hold the same characters.
pub fn same(a: &[char], b: &[char]) -> (r: bool)
    ensures
        r == (a@ == b@),
{
    if a.len() != b.len() {
        return false;
    }
    let mut i: usize = 0;
    while i < a.len()
        invariant
            i <= a@.len(),
            a@.len() == b@.len(),
            forall|k: int| 0 <= k < i ==> a@[k] == b@[k],
        decreases a@.len() - i,
    {
        if a[i] != b[i] {
            return false;
        }
        i += 1;
    }
    assert(a@ =~= b@);
    true
}

/// Whether two strings hold the same characters.
pub fn same_str(a: &str, b: &str) -> (r: bool)
    ensures
        r == (a@ == b@),
{
    let x = chars_of(a);
    let y = chars_of(b);
    same(x.as_slice(), y.as_slice())
}

/// The characters with Unicode's `White_Space` property.
pub open spec fn white(c: char) -> bool {
    ||| 0x9 <= c as u32 <= 0xD
    ||| c as u32 == 0x20
    ||| c as u32 == 0x85
    ||| c as u32 == 0xA0
    ||| c as u32 == 0x1680
    ||| 0x2000 <= c as u32 <= 0x200A
    ||| c as u32 == 0x2028
    ||| c as u32 == 0x2029
    ||| c as u32 == 0x202F
    ||| c as u32 == 0x205F
    ||| c as u32 == 0x3000
}

/// Whether `c` is white space.
pub fn is_white(c: char) -> (r: bool)
    ensures
        r == white(c),
{
    let u: u32 = c as u32;
    (0x9 <= u && u <= 0xD) || u == 0x20 || u == 0x85 || u == 0xA0 || u == 0x1680 || (0x2000 <= u
        && u <= 0x200A) || u == 0x2028 || u == 0x2029 || u == 0x202F || u == 0x205F || u == 0x3000
}

/// An ASCII letter in lower case; anything else as it is.
pub open spec fn ascii_lower(c: char) -> char {
    if 'A' <= c && c <= 'Z' {
        (c as u32 + 32) as char
    } else {
        c
    }
}

/// Brings an ASCII letter to lower case.
pub fn to_ascii_lower(c: char) -> (r: char)
    ensures
        r == ascii_lower(c),
{
    if 'A' <= c && c <= 'Z' {
        let b: u8 = c as u8 + 32;
        b as char
    } else {
        c
    }
}

/// `s` without the white space it starts with.
pub open spec fn trimmed_start(s: Seq<char>) -> Seq<char>
    decreases s.len(),
{
    if s.len() > 0 && white(s[0]) {
        trimmed_start(s.skip(1))
    } else {
        s
    }
}

/// `s` without the white space it ends with.
pub open spec fn trimmed_end(s: Seq<char>) -> Seq<char>
    decreases s.len(),
{
    if s.len() > 0 && white(s.last()) {
        trimmed_end(s.drop_last())
    } else {
        s
    }
}

/// `s` without white space at either end.
pub open spec fn trimmed(s: Seq<char>) -> Seq<char> {
    trimmed_end(trimmed_start(s))
}

/// Drops leading white space.
pub fn trim_start(cs: &[char]) -> (r: &[char])
    ensures
        r@ == trimmed_start(cs@),
{
    let mut i: usize = 0;
    assert(cs@.skip(0) == cs@);
    while i < cs.len() && is_white(cs[i])
        invariant
            i <= cs@.len(),
            trimmed_start(cs@) == trimmed_start(cs@.skip(i as int)),
        decreases cs@.len() - i,
    {
        assert(cs@.skip(i as int).skip(1) == cs@.skip(i as int + 1));
        i += 1;
    }
    assert(cs@.skip(i as int) == cs@.subrange(i as int, cs@.len() as int));
    &cs[i..cs.len()]
}

/// Drops trailing white space.
pub fn trim_end(cs: &[char]) -> (r: &[char])
    ensures
        r@ == trimmed_end(cs@),
{
    let mut n: usize = cs.len();
    assert(cs@.take(n as int) == cs@);
    while n > 0 && is_white(cs[n - 1])
        invariant
            n <= cs@.len(),
            trimmed_end(cs@) == trimmed_end(cs@.take(n as int)),
        decreases n,
    {
        assert(cs@.take(n as int).drop_last() == cs@.take(n as int - 1));
        n -= 1;
    }
    assert(cs@.take(n as int) == cs@.subrange(0, n as int));
    &cs[0..n]
}

/// Drops white space at both ends.
pub fn trim(cs: &[char]) -> (r: &[char])
    ensures
        r@ == trimmed(cs@),
{
    trim_end(trim_start(cs))
}

/// Whether `needle` stands in `hay` at position `i`.
pub open spec fn occurs(hay: Seq<char>, needle: Seq<char>, i: int) -> bool {
    0 <= i && i + needle.len() <= hay.len() && hay.subrange(i, i + needle.len()) == needle
}

/// Tests for `needle` at position `i`.
pub fn occurs_at(hay: &[char], needle: &[char], i: usize) -> (r: bool)
    ensures
        r == occurs(hay@, needle@, i as int),
{
    if i > hay.len() || needle.len() > hay.len() - i {
        return false;
    }
    let mut k: usize = 0;
    while k < needle.len()
        invariant
            k <= needle@.len(),
            i + needle.len() <= hay.len(),
            forall|j: int| 0 <= j < k ==> hay@[i + j] == needle@[j],
        decreases needle@.len() - k,
    {
        if hay[i + k] != needle[k] {
            assert(hay@.subrange(i as int, i + needle@.len())[k as int] != needle@[k as int]);
            return false;
        }
        k += 1;
    }
    assert(hay@.subrange(i as int, i + needle@.len()) == needle@);
    true
}

/// The first place at or after `from` where `needle` stands in `hay`.
pub open spec fn find_from(hay: Seq<char>, needle: Seq<char>, from: int) -> Option<int>
    decreases hay.len() + 1 - from,
{
    if from < 0 || from + needle.len() > hay.len() {
        None
    } else if occurs(hay, needle, from) {
        Some(from)
    } else {
        find_from(hay, needle, from + 1)
    }
}

/// A place that was found is an occurrence, and none stands before it.
pub proof fn lemma_find_from(hay: Seq<char>, needle: Seq<char>, from: int)
    requires
        0 <= from,
    ensures
        match find_from(hay, needle, from) {
            Some(i) => from <= i && occurs(hay, needle, i) && forall|j: int|
                from <= j < i ==> !#[trigger] occurs(hay, needle, j),
            None => forall|j: int| from <= j ==> !#[trigger] occurs(hay, needle, j),
        },
    decreases hay.len() + 1 - from,
{
    if from + needle.len() <= hay.len() && !occurs(hay, needle, from) {
        lemma_find_from(hay, needle, from + 1);
    }
}

/// Finds `needle` at or after `from`.
pub fn find(hay: &[char], needle: &[char], from: usize) -> (r: Option<usize>)
    ensures
        match r {
            Some(i) => find_from(hay@, needle@, from as int) == Some(i as int) && i + needle@.len()
                <= hay@.len(),
            None => find_from(hay@, needle@, from as int) is None,
        },
{
    let mut i: usize = from;
    if i > hay.len() {
        return None;
    }
    loop
        invariant
            i <= hay@.len(),
            find_from(hay@, needle@, from as int) == find_from(hay@, needle@, i as int),
        decreases hay@.len() - i,
    {
        if needle.len() > hay.len() - i {
            return None;
        }
        if occurs_at(hay, needle, i) {
            return Some(i);
        }
        if i == hay.len() {
            assert(find_from(hay@, needle@, i + 1) is None);
            return None;
        }
        i += 1;
    }
}

/// The first position at or after `from` that holds `c`.
pub open spec fn first_of(s: Seq<char>, c: char, from: int) -> Option<int>
    decreases s.len() - from,
{
    if from < 0 || from >= s.len() {
        None
    } else if s[from] == c {
        Some(from)
    } else {
        first_of(s, c, from + 1)
    }
}

/// A position that was found holds the character, and none before it does.
pub proof fn lemma_first_of(s: Seq<char>, c: char, from: int)
    requires
        0 <= from,
    ensures
        match first_of(s, c, from) {
            Some(i) => from <= i < s.len() && s[i] == c && forall|j: int|
                from <= j < i ==> s[j] != c,
            None => forall|j: int| from <= j < s.len() ==> s[j] != c,
        },
    decreases s.len() - from,
{
    if from < s.len() && s[from] != c {
        lemma_first_of(s, c, from + 1);
    }
}

/// Finds `c` at or after `from`.
pub fn position(s: &[char], c: char, from: usize) -> (r: Option<usize>)
    ensures
        match r {
            Some(i) => first_of(s@, c, from as int) == Some(i as int) && from <= i < s@.len() && s@[i as int] == c,
            None => first_of(s@, c, from as int) is None,
        },
{
    let mut i: usize = from;
    while i < s.len()
        invariant
            from <= i,
            first_of(s@, c, from as int) == first_of(s@, c, i as int),
        decreases s@.len() - i,
    {
        if s[i] == c {
            return Some(i);
        }
        i += 1;
    }
    None
}

/// The pieces of `s` between the occurrences of `c`: one more than there are
/// occurrences.
pub open spec fn split_on(s: Seq<char>, c: char) -> Seq<Seq<char>>
    decreases s.len(),
{
    match first_of(s, c, 0) {
        Some(i) if 0 <= i < s.len() => seq![s.take(i)] + split_on(s.skip(i + 1), c),
        _ => seq![s],
    }
}

/// The character sequences of a list of character vectors.
pub open spec fn rows(v: Seq<Vec<char>>) -> Seq<Seq<char>> {
    v.map_values(|w: Vec<char>| w@)
}

/// Copies a slice of characters.
pub fn copied(cs: &[char]) -> (r: Vec<char>)
    ensures
        r@ == cs@,
{
    let mut out: Vec<char> = Vec::new();
    let mut i: usize = 0;
    while i < cs.len()
        invariant
            i <= cs@.len(),
            out@ == cs@.take(i as int),
        decreases cs@.len() - i,
    {
        out.push(cs[i]);
        i += 1;
    }
    assert(cs@.take(cs@.len() as int) == cs@);
    out
}

/// Splits `s` at every `c`.
pub fn split(s: &[char], c: char) -> (r: Vec<Vec<char>>)
    ensures
        rows(r@) == split_on(s@, c),
{
    let mut out: Vec<Vec<char>> = Vec::new();
    let mut from: usize = 0;
    assert(s@.skip(0) == s@);
    assert(rows(out@) + split_on(s@.skip(0), c) == split_on(s@, c));
    loop
        invariant
            from <= s@.len(),
            rows(out@) + split_on(s@.skip(from as int), c) == split_on(s@, c),
        decreases s@.len() - from,
    {
        let rest = &s[from..s.len()];
        assert(rest@ == s@.skip(from as int));
        let ghost before = rows(out@);
        match position(rest, c, 0) {
            Some(i) => {
                let piece = copied(&rest[0..i]);
                assert(piece@ == rest@.take(i as int));
                out.push(piece);
                assert(rows(out@) == before.push(piece@));
                assert(s@.skip(from + i + 1) == rest@.skip(i + 1));
                assert(rows(out@) + split_on(rest@.skip(i + 1), c) == before + (seq![piece@]
                    + split_on(rest@.skip(i + 1), c)));
                from += i + 1;
            },
            None => {
                let piece = copied(rest);
                out.push(piece);
                assert(rows(out@) == before.push(piece@));
                assert(rows(out@) == before + seq![rest@]);
                return out;
            },
        }
    }
}

/// `s` without one carriage return at its end.
pub open spec fn without_cr(s: Seq<char>) -> Seq<char> {
    if s.len() > 0 && s.last() == '\r' {
        s.drop_last()
    } else {
        s
    }
}

/// The lines of `s`: a line ends at `\n` or `\r\n`, and a last line needs no end.
pub open spec fn lines_of(s: Seq<char>) -> Seq<Seq<char>>
    decreases s.len(),
{
    if s.len() == 0 {
        Seq::empty()
    } else {
        match first_of(s, '\n', 0) {
            Some(i) if 0 <= i < s.len() => seq![without_cr(s.take(i))] + lines_of(s.skip(i + 1)),
            _ => seq![s],
        }
    }
}

/// Splits `s` into its lines.
pub fn lines(s: &[char]) -> (r: Vec<Vec<char>>)
    ensures
        rows(r@) == lines_of(s@),
{
    let mut out: Vec<Vec<char>> = Vec::new();
    let mut from: usize = 0;
    assert(s@.skip(0) == s@);
    assert(rows(out@) + lines_of(s@.skip(0)) == lines_of(s@));
    while from < s.len()
        invariant
            from <= s@.len(),
            rows(out@) + lines_of(s@.skip(from as int)) == lines_of(s@),
        decreases s@.len() - from,
    {
        let rest = &s[from..s.len()];
        assert(rest@ == s@.skip(from as int));
        let ghost before = rows(out@);
        match position(rest, '\n', 0) {
            Some(i) => {
                let end: usize = if i > 0 && rest[i - 1] == '\r' { i - 1 } else { i };
                let piece = copied(&rest[0..end]);
                assert(piece@ == without_cr(rest@.take(i as int)));
                out.push(piece);
                assert(rows(out@) == before.push(piece@));
                assert(s@.skip(from + i + 1) == rest@.skip(i + 1));
                assert(rows(out@) + lines_of(rest@.skip(i + 1)) == before + (seq![piece@]
                    + lines_of(rest@.skip(i + 1))));
                from += i + 1;
            },
            None => {
                let piece = copied(rest);
                out.push(piece);
                assert(rows(out@) == before.push(piece@));
                assert(rows(out@) == before + seq![rest@]);
                return out;
            },
        }
    }
    assert(s@.skip(from as int) == Seq::<char>::empty());
    assert(rows(out@) + Seq::<Seq<char>>::empty() == rows(out@));
    out
}

/// Whether `a` stands before `b` in a dictionary ordered by code points.
pub open spec fn before(a: Seq<char>, b: Seq<char>) -> bool
    decreases a.len(),
{
    if b.len() == 0 {
        false
    } else if a.len() == 0 {
        true
    } else {
        a[0] < b[0] || (a[0] == b[0] && before(a.skip(1), b.skip(1)))
    }
}

/// Of two different texts exactly one stands before the other.
pub proof fn lemma_before_total(a: Seq<char>, b: Seq<char>)
    ensures
        a != b ==> (before(a, b) <==> !before(b, a)),
        !before(a, a),
    decreases a.len(),
{
    if a.len() > 0 {
        lemma_before_total(a.skip(1), a.skip(1));
    }
    if a.len() > 0 && b.len() > 0 {
        lemma_before_total(a.skip(1), b.skip(1));
        if a != b && a[0] == b[0] {
            assert(a.skip(1) != b.skip(1)) by {
                if a.skip(1) == b.skip(1) {
                    assert(a.len() == b.len());
                    assert forall|i: int| 0 <= i < a.len() implies a[i] == b[i] by {
                        if i > 0 {
                            assert(a.skip(1)[i - 1] == b.skip(1)[i - 1]);
                        }
                    }
                    assert(a =~= b);
                }
            }
        }
    } else if a.len() == 0 && b.len() == 0 {
        assert(a =~= b);
    }
}

/// The dictionary order chains.
pub proof fn lemma_before_chains(a: Seq<char>, b: Seq<char>, c: Seq<char>)
    requires
        before(a, b),
        before(b, c),
    ensures
        before(a, c),
    decreases a.len(),
{
    if a.len() > 0 && a[0] == b[0] && b[0] == c[0] {
        lemma_before_chains(a.skip(1), b.skip(1), c.skip(1));
    }
}

/// Tests the dictionary order.
pub fn is_before(a: &[char], b: &[char]) -> (r: bool)
    ensures
        r == before(a@, b@),
{
    let mut i: usize = 0;
    assert(a@.skip(0) == a@ && b@.skip(0) == b@);
    while i < a.len() && i < b.len()
        invariant
            i <= a@.len(),
            i <= b@.len(),
            before(a@, b@) == before(a@.skip(i as int), b@.skip(i as int)),
        decreases a@.len() - i,
    {
        assert(a@.skip(i as int).skip(1) == a@.skip(i + 1));
        assert(b@.skip(i as int).skip(1) == b@.skip(i + 1));
        if a[i] < b[i] {
            return true;
        }
        if a[i] > b[i] {
            return false;
        }
        i += 1;
    }
    i < b.len()
}

/// `a` followed by `b`.
pub fn concat(a: &str, b: &str) -> (r: String)
    ensures
        r@ == a@ + b@,
{
    let mut out = a.to_owned();
    out.append(b);
    out
}

/// Whether `s` starts with `prefix`.
pub fn starts_with(s: &[char], prefix: &[char]) -> (r: bool)
    ensures
        r == prefix@.is_prefix_of(s@),
{
    let r = occurs_at(s, prefix, 0);
    assert(s@.len() >= prefix@.len() ==> s@.subrange(0, prefix@.len() as int) =~= s@.take(
        prefix@.len() as int,
    ));
    r
}

/// The texts of a list of strings.
pub open spec fn texts(v: Seq<String>) -> Seq<Seq<char>> {
    v.map_values(|s: String| s@)
}

/// Closes each row into a string.
pub fn strings_of(v: &Vec<Vec<char>>) -> (r: Vec<String>)
    ensures
        texts(r@) == rows(v@),
{
    let mut out: Vec<String> = Vec::new();
    let mut i: usize = 0;
    while i < v.len()
        invariant
            i <= v@.len(),
            texts(out@) =~= rows(v@).take(i as int),
        decreases v@.len() - i,
    {
        let ghost before = texts(out@);
        let row = string_of(v[i].as_slice());
        out.push(row);
        assert(texts(out@) =~= before.push(row@));
        assert(rows(v@).take(i + 1) =~= rows(v@).take(i as int).push(v@[i as int]@));
        i += 1;
    }
    assert(rows(v@).take(v@.len() as int) =~= rows(v@));
    out
}

/// `parts` one after another, with `sep` between them.
pub open spec fn joined(parts: Seq<Seq<char>>, sep: Seq<char>) -> Seq<char>
    decreases parts.len(),
{
    if parts.len() == 0 {
        Seq::empty()
    } else if parts.len() == 1 {
        parts[0]
    } else {
        joined(parts.drop_last(), sep) + sep + parts.last()
    }
}

/// What stands first in what is joined.
pub proof fn lemma_joined_first(w: Seq<char>, ws: Seq<Seq<char>>, sep: Seq<char>)
    ensures
        joined(seq![w] + ws, sep) == if ws.len() == 0 {
            w
        } else {
            w + sep + joined(ws, sep)
        },
    decreases ws.len(),
{
    let all = seq![w] + ws;
    if ws.len() == 0 {
    } else if ws.len() == 1 {
        assert(all.drop_last() =~= seq![w]);
        assert(joined(all.drop_last(), sep) == w);
    } else {
        assert(all.drop_last() =~= seq![w] + ws.drop_last());
        lemma_joined_first(w, ws.drop_last(), sep);
        assert(joined(all, sep) =~= w + sep + joined(ws, sep));
    }
}

/// Joining adds nothing but separators.
pub proof fn lemma_joined_lacks(parts: Seq<Seq<char>>, sep: char, x: char)
    requires
        sep != x,
        forall|k: int, i: int|
            0 <= k < parts.len() && 0 <= i < parts[k].len() ==> #[trigger] parts[k][i] != x,
    ensures
        forall|i: int|
            0 <= i < joined(parts, seq![sep]).len() ==> #[trigger] joined(parts, seq![sep])[i] != x,
    decreases parts.len(),
{
    if parts.len() == 1 {
        assert forall|i: int| 0 <= i < parts[0].len() implies #[trigger] joined(
            parts,
            seq![sep],
        )[i] != x by {
            assert(parts[0][i] != x);
        }
    } else if parts.len() > 1 {
        let front = parts.drop_last();
        assert forall|k: int, i: int| 0 <= k < front.len() && 0 <= i < front[k].len() implies
            #[trigger] front[k][i] != x by {
            assert(parts[k][i] != x);
        }
        lemma_joined_lacks(front, sep, x);
        let j = joined(front, seq![sep]);
        let all = joined(parts, seq![sep]);
        let n = parts.len() - 1;
        assert forall|i: int| 0 <= i < all.len() implies #[trigger] all[i] != x by {
            if i < j.len() {
                assert(all[i] == j[i]);
            } else if i > j.len() {
                assert(all[i] == parts[n][i - j.len() - 1]);
            }
        }
    }
}

/// A piece behind another stands behind a separator, and the first one first.
pub proof fn lemma_joined_starts(parts: Seq<Seq<char>>, sep: char, k: int)
    requires
        0 <= k < parts.len(),
        parts[k].len() > 0,
    ensures
        ({
            let all = joined(parts, seq![sep]);
            if k == 0 {
                all.len() > 0 && all[0] == parts[0][0]
            } else {
                exists|j: int|
                    0 <= j && j + 1 < all.len() && #[trigger] all[j] == sep && all[j + 1]
                        == parts[k][0]
            }
        }),
    decreases parts.len(),
{
    if parts.len() > 1 {
        let front = parts.drop_last();
        let all = joined(parts, seq![sep]);
        let f = joined(front, seq![sep]);
        if k == parts.len() - 1 {
            let j = f.len() as int;
            assert(all[j] == sep);
            assert(all[j + 1] == parts[k][0]);
        } else {
            assert(front[k] == parts[k]);
            lemma_joined_starts(front, sep, k);
            if k == 0 {
                assert(all[0] == f[0]);
            } else {
                let j = choose|j: int|
                    0 <= j && j + 1 < f.len() && #[trigger] f[j] == sep && f[j + 1]
                        == front[k][0];
                assert(all[j] == f[j]);
                assert(all[j + 1] == f[j + 1]);
            }
        }
    }
}

/// Splitting leaves the separator out and adds nothing. Something behind a
/// separator starts a piece.
pub proof fn lemma_split_pieces(s: Seq<char>, c: char)
    ensures
        split_on(s, c).len() > 0,
        forall|k: int, i: int|
            0 <= k < split_on(s, c).len() && 0 <= i < split_on(s, c)[k].len() ==> {
                let x = #[trigger] split_on(s, c)[k][i];
                x != c && exists|j: int| 0 <= j < s.len() && s[j] == x
            },
        s.len() > 0 && s[0] != c ==> split_on(s, c)[0].len() > 0 && split_on(s, c)[0][0] == s[0],
        forall|j: int|
            0 <= j && j + 1 < s.len() && #[trigger] s[j] == c && s[j + 1] != c ==> exists|k: int|
                1 <= k < split_on(s, c).len() && (#[trigger] split_on(s, c)[k]).len() > 0
                    && split_on(s, c)[k][0] == s[j + 1],
    decreases s.len(),
{
    lemma_first_of(s, c, 0);
    let all = split_on(s, c);
    match first_of(s, c, 0) {
        Some(i) => {
            let t = s.skip(i + 1);
            let rest = split_on(t, c);
            lemma_split_pieces(t, c);
            assert(all == seq![s.take(i)] + rest);
            assert forall|k: int, n: int| 0 <= k < all.len() && 0 <= n < all[k].len() implies {
                let x = #[trigger] all[k][n];
                x != c && exists|j: int| 0 <= j < s.len() && s[j] == x
            } by {
                if k == 0 {
                    assert(all[k][n] == s[n]);
                } else {
                    assert(all[k] == rest[k - 1]);
                    let x = rest[k - 1][n];
                    let j = choose|j: int| 0 <= j < t.len() && t[j] == x;
                    assert(s[i + 1 + j] == x);
                }
            }
            assert forall|j: int|
                0 <= j && j + 1 < s.len() && #[trigger] s[j] == c && s[j + 1] != c implies exists|
                k: int,
            |
                1 <= k < all.len() && (#[trigger] all[k]).len() > 0 && all[k][0] == s[j + 1] by {
                assert(j >= i);
                if j == i {
                    assert(t[0] == s[j + 1]);
                    assert(all[1] == rest[0]);
                } else {
                    let m = j - i - 1;
                    assert(t[m] == s[j]);
                    assert(t[m + 1] == s[j + 1]);
                    let k = choose|k: int|
                        1 <= k < rest.len() && (#[trigger] rest[k]).len() > 0 && rest[k][0]
                            == t[m + 1];
                    assert(all[k + 1] == rest[k]);
                }
            }
        },
        None => {
            assert(all == seq![s]);
        },
    }
}

/// Splitting what was joined gives the parts back, where none holds the separator.
pub proof fn lemma_split_joined(parts: Seq<Seq<char>>, c: char)
    requires
        parts.len() > 0,
        forall|k: int, i: int|
            0 <= k < parts.len() && 0 <= i < parts[k].len() ==> #[trigger] parts[k][i] != c,
    ensures
        split_on(joined(parts, seq![c]), c) == parts,
    decreases parts.len(),
{
    let w = parts[0];
    let ws = parts.skip(1);
    let s = joined(parts, seq![c]);
    assert(parts =~= seq![w] + ws);
    lemma_joined_first(w, ws, seq![c]);
    lemma_first_of(s, c, 0);
    if ws.len() == 0 {
        assert forall|i: int| 0 <= i < s.len() implies s[i] != c by {
            assert(parts[0][i] != c);
        }
        assert(split_on(s, c) =~= parts);
    } else {
        let n = w.len() as int;
        assert(s[n] == c);
        let i = first_of(s, c, 0)->0;
        if i < n {
            assert(parts[0][i] != c);
        }
        assert(i == n);
        assert(s.take(n) =~= w);
        assert(s.skip(n + 1) =~= joined(ws, seq![c]));
        assert forall|k: int, m: int| 0 <= k < ws.len() && 0 <= m < ws[k].len() implies
            #[trigger] ws[k][m] != c by {
            assert(parts[k + 1][m] != c);
        }
        lemma_split_joined(ws, c);
        assert(split_on(s, c) =~= parts);
    }
}

/// Joins `parts`, with `sep` between them.
pub fn join(parts: &Vec<String>, sep: &str) -> (r: String)
    ensures
        r@ == joined(texts(parts@), sep@),
{
    let ghost all = texts(parts@);
    let mut out = String::new();
    let mut i: usize = 0;
    assert(all.take(0) =~= Seq::<Seq<char>>::empty());
    while i < parts.len()
        invariant
            i <= parts@.len(),
            all == texts(parts@),
            out@ == joined(all.take(i as int), sep@),
        decreases parts@.len() - i,
    {
        assert(all.take(i + 1).drop_last() =~= all.take(i as int));
        assert(all.take(i + 1).last() == parts@[i as int]@);
        if i > 0 {
            out.append(sep);
        }
        out.append(parts[i].as_str());
        assert(out@ =~= joined(all.take(i + 1), sep@));
        i += 1;
    }
    assert(all.take(i as int) =~= all);
    out
}

/// The length of the run without white space that `s` starts with.
pub open spec fn word_len(s: Seq<char>) -> nat
    decreases s.len(),
{
    if s.len() == 0 || white(s[0]) {
        0
    } else {
        1 + word_len(s.skip(1))
    }
}

/// The pieces of `s` between runs of white space.
pub open spec fn words_of(s: Seq<char>) -> Seq<Seq<char>>
    decreases s.len(),
    via words_of_decreases
{
    let t = trimmed_start(s);
    if t.len() == 0 {
        Seq::empty()
    } else {
        seq![t.take(word_len(t) as int)] + words_of(t.skip(word_len(t) as int))
    }
}

#[via_fn]
proof fn words_of_decreases(s: Seq<char>) {
    lemma_trimmed_start(s);
    lemma_word_len(trimmed_start(s));
}

/// What is left after leading white space starts with something else.
pub proof fn lemma_trimmed_start(s: Seq<char>)
    ensures
        trimmed_start(s).len() <= s.len(),
        trimmed_start(s).len() > 0 ==> !white(trimmed_start(s)[0]),
    decreases s.len(),
{
    if s.len() > 0 && white(s[0]) {
        lemma_trimmed_start(s.skip(1));
    }
}

/// A word is no longer than its text, and something where no white space leads.
pub proof fn lemma_word_len(s: Seq<char>)
    ensures
        word_len(s) <= s.len(),
        s.len() > 0 && !white(s[0]) ==> word_len(s) > 0,
    decreases s.len(),
{
    if s.len() > 0 && !white(s[0]) {
        lemma_word_len(s.skip(1));
    }
}

fn run_len(s: &[char]) -> (n: usize)
    ensures
        n == word_len(s@),
        n <= s@.len(),
{
    let mut i: usize = 0;
    assert(s@.skip(0) == s@);
    while i < s.len() && !is_white(s[i])
        invariant
            i <= s@.len(),
            word_len(s@) == i + word_len(s@.skip(i as int)),
        decreases s@.len() - i,
    {
        assert(s@.skip(i as int).skip(1) == s@.skip(i + 1));
        i += 1;
    }
    i
}

/// The words of `s` with one space between them.
pub open spec fn collapsed(s: Seq<char>) -> Seq<char> {
    joined(words_of(s), seq![' '])
}

/// Whether `s` has white space nowhere but as single spaces between other things.
pub open spec fn tidy(s: Seq<char>) -> bool {
    &&& s.len() > 0 ==> !white(s[0]) && !white(s.last())
    &&& forall|i: int|
        0 <= i < s.len() && white(#[trigger] s[i]) ==> s[i] == ' ' && (i + 1 < s.len() ==> !white(
            s[i + 1],
        ))
}

/// Puts one space in place of every run of white space, and none at the ends.
pub fn collapse(s: &[char]) -> (r: Vec<char>)
    ensures
        r@ == collapsed(s@),
{
    let mut out: Vec<char> = Vec::new();
    let ghost mut done: Seq<Seq<char>> = Seq::empty();
    let mut from: usize = 0;
    assert(s@.skip(0) == s@);
    assert(done + words_of(s@) =~= words_of(s@));
    loop
        invariant
            from <= s@.len(),
            done + words_of(s@.skip(from as int)) == words_of(s@),
            out@ == joined(done, seq![' ']),
            (from > 0) == (done.len() > 0),
        decreases s@.len() - from,
    {
        let rest = &s[from..s.len()];
        assert(rest@ == s@.skip(from as int));
        let t = trim_start(rest);
        proof {
            lemma_trimmed_start(rest@);
            lemma_word_len(t@);
        }
        if t.len() == 0 {
            assert(done + words_of(rest@) =~= done);
            return out;
        }
        let skipped: usize = rest.len() - t.len();
        let n: usize = run_len(t);
        let ghost before = done;
        let ghost word = t@.take(n as int);
        proof {
            lemma_trimmed_start_is_suffix(rest@);
            done = before.push(word);
            assert(done.drop_last() =~= before);
            assert(before + (seq![word] + words_of(t@.skip(n as int))) =~= done + words_of(
                t@.skip(n as int),
            ));
            assert(t@.skip(n as int) =~= s@.skip(from + skipped + n));
        }
        if from > 0 {
            out.push(' ');
        }
        let mut k: usize = 0;
        let ghost lead = out@;
        while k < n
            invariant
                k <= n <= t@.len(),
                out@ == lead + t@.take(k as int),
            decreases n - k,
        {
            out.push(t[k]);
            assert(out@ =~= lead + t@.take(k + 1));
            k += 1;
        }
        proof {
            assert(t@.take(n as int) == word);
            if before.len() > 0 {
                assert(out@ =~= joined(before, seq![' ']) + seq![' '] + word);
            } else {
                assert(out@ =~= word);
            }
        }
        from = from + skipped + n;
    }
}

/// Dropping trailing white space leaves the start of a text.
pub proof fn lemma_trimmed_end(s: Seq<char>)
    ensures
        trimmed_end(s).len() <= s.len(),
        trimmed_end(s) == s.take(trimmed_end(s).len() as int),
        trimmed_end(s).len() > 0 ==> !white(trimmed_end(s).last()),
    decreases s.len(),
{
    if s.len() > 0 && white(s.last()) {
        lemma_trimmed_end(s.drop_last());
        let n = trimmed_end(s).len() as int;
        assert(s.drop_last().take(n) =~= s.take(n));
    } else {
        assert(s.take(s.len() as int) =~= s);
    }
}

/// Dropping leading white space leaves the end of a text.
pub proof fn lemma_trimmed_start_is_suffix(s: Seq<char>)
    ensures
        trimmed_start(s).len() <= s.len(),
        trimmed_start(s) == s.skip(s.len() - trimmed_start(s).len()),
    decreases s.len(),
{
    if s.len() > 0 && white(s[0]) {
        lemma_trimmed_start_is_suffix(s.skip(1));
        let n = trimmed_start(s.skip(1)).len();
        assert(s.skip(1).skip(s.len() - 1 - n) =~= s.skip(s.len() - n));
    } else {
        assert(s.skip(0) =~= s);
    }
}

/// How many bytes a character takes in UTF-8.
pub open spec fn byte_width(c: char) -> nat {
    if (c as u32) < 0x80 {
        1
    } else if (c as u32) < 0x800 {
        2
    } else if (c as u32) < 0x10000 {
        3
    } else {
        4
    }
}

/// How many bytes a text takes in UTF-8.
pub open spec fn byte_len(s: Seq<char>) -> nat
    decreases s.len(),
{
    if s.len() == 0 {
        0
    } else {
        byte_width(s[0]) + byte_len(s.skip(1))
    }
}

/// The character that starts at byte `n`, or the end; `None` inside a character
/// and beyond the end.
pub open spec fn at_byte(s: Seq<char>, n: nat) -> Option<int>
    decreases s.len(),
{
    if n == 0 {
        Some(0)
    } else if s.len() == 0 || n < byte_width(s[0]) {
        None
    } else {
        match at_byte(s.skip(1), (n - byte_width(s[0])) as nat) {
            Some(i) => Some(i + 1),
            None => None,
        }
    }
}

/// A character that was found is one of the text, or its end.
pub proof fn lemma_at_byte(s: Seq<char>, n: nat)
    ensures
        at_byte(s, n) matches Some(i) ==> 0 <= i <= s.len(),
    decreases s.len(),
{
    if n > 0 && s.len() > 0 && n >= byte_width(s[0]) {
        lemma_at_byte(s.skip(1), (n - byte_width(s[0])) as nat);
    }
}

fn width8(c: char) -> (n: u128)
    ensures
        n == byte_width(c),
{
    let u: u32 = c as u32;
    if u < 0x80 {
        1
    } else if u < 0x800 {
        2
    } else if u < 0x10000 {
        3
    } else {
        4
    }
}

/// The bytes of the first `k` characters of `s`.
pub fn bytes_before(s: &[char], k: usize) -> (n: u128)
    requires
        k <= s@.len(),
    ensures
        n == byte_len(s@.take(k as int)),
{
    let mut n: u128 = 0;
    let mut i: usize = k;
    assert(s@.subrange(k as int, k as int) =~= Seq::empty());
    while i > 0
        invariant
            i <= k <= s@.len(),
            n == byte_len(s@.subrange(i as int, k as int)),
            n <= 4 * (k - i),
        decreases i,
    {
        i -= 1;
        n = n + width8(s[i]);
        assert(s@.subrange(i as int, k as int).skip(1) =~= s@.subrange(i + 1, k as int));
    }
    assert(s@.subrange(0, k as int) =~= s@.take(k as int));
    n
}

/// Finds the character that starts at byte `n`.
pub fn char_at_byte(s: &[char], n: u128) -> (r: Option<usize>)
    ensures
        match r {
            Some(i) => at_byte(s@, n as nat) == Some(i as int) && i <= s@.len(),
            None => at_byte(s@, n as nat) is None,
        },
{
    let mut i: usize = 0;
    let mut left: u128 = n;
    assert(s@.skip(0) == s@);
    while left > 0
        invariant
            i <= s@.len(),
            match at_byte(s@.skip(i as int), left as nat) {
                Some(k) => at_byte(s@, n as nat) == Some(i + k),
                None => at_byte(s@, n as nat) is None,
            },
        decreases s@.len() - i,
    {
        if i >= s.len() {
            return None;
        }
        let w: u128 = width8(s[i]);
        if left < w {
            return None;
        }
        assert(s@.skip(i as int).skip(1) == s@.skip(i + 1));
        left = left - w;
        i += 1;
    }
    Some(i)
}

/// The digit character of `d`, for `d < 10`.
pub open spec fn digit(d: nat) -> char {
    ('0' as u32 + d) as char
}

/// `n` written in base ten, without leading zeros.
pub open spec fn decimal(n: nat) -> Seq<char>
    decreases n,
{
    if n < 10 {
        seq![digit(n)]
    } else {
        decimal(n / 10).push(digit(n % 10))
    }
}

/// A number is written with digits.
pub proof fn lemma_decimal_digits(n: nat)
    ensures
        decimal(n).len() > 0,
        forall|i: int|
            0 <= i < decimal(n).len() ==> '0' <= (#[trigger] decimal(n)[i]) && decimal(n)[i] <= '9',
    decreases n,
{
    if n >= 10 {
        lemma_decimal_digits(n / 10);
        let d = decimal(n / 10);
        assert forall|i: int| 0 <= i < decimal(n).len() implies '0' <= (#[trigger] decimal(n)[i])
            && decimal(n)[i] <= '9' by {
            if i < d.len() {
                assert(decimal(n)[i] == d[i]);
            }
        }
    }
}

fn digit_char(d: u64) -> (c: char)
    requires
        d < 10,
    ensures
        c == digit(d as nat),
{
    let b: u8 = 48 + d as u8;
    b as char
}

/// Writes `n` in base ten.
pub fn show(n: u64) -> (r: String)
    ensures
        r@ == decimal(n as nat),
    decreases n,
{
    if n < 10 {
        let mut out = String::new();
        out.push(digit_char(n));
        assert(out@ == decimal(n as nat));
        out
    } else {
        let mut out = show(n / 10);
        out.push(digit_char(n % 10));
        out
    }
}

} // verus!
