//! String helpers shared by the catalogue, the indicator index and the
//! navigation controller.
//!
//! Contracts speak of a string through its view, the sequence of its
//! characters.

use vstd::prelude::*;
use vstd::utf8::is_ascii_chars;

verus! {

/// What `str::to_lowercase` returns for the characters `s`.
pub uninterp spec fn lowercased(s: Seq<char>) -> Seq<char>;

/// Lowercases `s` with `str::to_lowercase`. The result is the Unicode
/// lowercase form, which depends on the characters of `s` alone; nothing
/// further is claimed of it.
#[verifier::external_body]
fn lowercase(s: &str) -> (r: String)
    ensures
        r@ == lowercased(s@),
{
    s.to_lowercase()
}

/// Appends one character with `String::push`: the string grows by exactly
/// that character at its end.
#[verifier::external_body]
pub(crate) fn push_char(s: &mut String, c: char)
    ensures
        final(s)@ == old(s)@.push(c),
{
    s.push(c);
}

/// The characters of `s`, in order.
pub fn chars_of(s: &str) -> (v: Vec<char>)
    ensures
        v@ == s@,
{
    let mut v: Vec<char> = Vec::new();
    for c in it: s.chars()
        invariant
            it.seq() == s@,
            v@ == s@.take(it.index() as int),
    {
        v.push(c);
        assert(s@.take(it.index() + 1) == s@.take(it.index() as int).push(c));
    }
    assert(s@.take(s@.len() as int) == s@);
    v
}

/// The small letter of a capital letter of the ASCII alphabet; any other
/// character as it is.
pub open spec fn small_letter(c: char) -> char {
    if 'A' <= c <= 'Z' {
        ((c as u32) + 32) as char
    } else {
        c
    }
}

/// A text with each ASCII capital turned into its small letter.
pub open spec fn ascii_lowered(s: Seq<char>) -> Seq<char> {
    Seq::new(s.len(), |i: int| small_letter(s[i]))
}

/// The lowercase form of a text: for a text of ASCII characters, the text
/// with its capitals turned into small letters; for any other text, what
/// the standard library's Unicode lowercasing gives.
pub open spec fn lowered(s: Seq<char>) -> Seq<char> {
    if is_ascii_chars(s) {
        ascii_lowered(s)
    } else {
        lowercased(s)
    }
}

/// The lowercase form of a text.
pub fn lower_text(s: &str) -> (r: String)
    ensures
        r@ == lowered(s@),
{
    if !s.is_ascii() {
        return lowercase(s);
    }
    let mut out = String::new();
    for c in it: s.chars()
        invariant
            it.seq() == s@,
            is_ascii_chars(s@),
            out@ == ascii_lowered(s@.take(it.index() as int)),
    {
        let code: u32 = c as u32;
        let small: char = if 65 <= code && code <= 90 {
            ((code + 32) as u8) as char
        } else {
            c
        };
        assert(small == small_letter(c));
        push_char(&mut out, small);
        assert(ascii_lowered(s@.take(it.index() + 1)) =~= ascii_lowered(
            s@.take(it.index() as int),
        ).push(small));
    }
    assert(s@.take(s@.len() as int) == s@);
    out
}

/// One step of key canonicalization on a single character, after
/// lowercasing: a space becomes an underscore, a parenthesis disappears,
/// anything else stays.
pub open spec fn key_char(c: char) -> Seq<char> {
    if c == ' ' {
        seq!['_']
    } else if c == '(' || c == ')' {
        Seq::empty()
    } else {
        seq![c]
    }
}

/// Spaces replaced by underscores and parentheses removed, character by
/// character.
pub open spec fn key_shape(s: Seq<char>) -> Seq<char>
    decreases s.len(),
{
    if s.len() == 0 {
        Seq::empty()
    } else {
        key_shape(s.drop_last()) + key_char(s.last())
    }
}

/// The symbolic key of a display name: lowercase, spaces turned into
/// underscores, parentheses stripped.
pub open spec fn canonical(name: Seq<char>) -> Seq<char> {
    key_shape(lowered(name))
}

/// Whether `s` holds neither a space nor a parenthesis.
pub open spec fn is_key_shaped(s: Seq<char>) -> bool {
    forall|i: int| 0 <= i < s.len() ==> s[i] != ' ' && s[i] != '(' && s[i] != ')'
}

/// `key_shape` leaves no space and no parenthesis behind.
pub proof fn lemma_key_shape_is_shaped(s: Seq<char>)
    ensures
        is_key_shaped(key_shape(s)),
    decreases s.len(),
{
    if s.len() > 0 {
        lemma_key_shape_is_shaped(s.drop_last());
    }
}

/// `key_shape` changes nothing in a string without spaces and parentheses.
pub proof fn lemma_key_shape_fixes_shaped(s: Seq<char>)
    requires
        is_key_shaped(s),
    ensures
        key_shape(s) == s,
    decreases s.len(),
{
    if s.len() > 0 {
        lemma_key_shape_fixes_shaped(s.drop_last());
        assert(s.drop_last().push(s.last()) == s);
    }
}

/// Reshaping a key is idempotent.
pub proof fn lemma_key_shape_idempotent(s: Seq<char>)
    ensures
        key_shape(key_shape(s)) == key_shape(s),
{
    lemma_key_shape_is_shaped(s);
    lemma_key_shape_fixes_shaped(key_shape(s));
}

/// Whether a text is made of ASCII characters other than capitals.
pub open spec fn is_small_ascii(s: Seq<char>) -> bool {
    forall|i: int| 0 <= i < s.len() ==> '\0' <= #[trigger] s[i] <= '\u{7f}' && !('A' <= s[i] <= 'Z')
}

/// `key_shape` keeps a text of small ASCII characters one.
proof fn lemma_key_shape_keeps_small(s: Seq<char>)
    requires
        is_small_ascii(s),
    ensures
        is_small_ascii(key_shape(s)),
    decreases s.len(),
{
    if s.len() > 0 {
        let rest = s.drop_last();
        assert forall|i: int| 0 <= i < rest.len() implies '\0' <= #[trigger] rest[i] <= '\u{7f}'
            && !('A' <= rest[i] <= 'Z') by {
            assert(rest[i] == s[i]);
        }
        lemma_key_shape_keeps_small(rest);
        assert('\0' <= s[s.len() - 1] <= '\u{7f}');
    }
}

/// The symbolic key of a key is the key itself: canonicalization is
/// idempotent. This holds of every name of ASCII characters, and of any
/// other name whose key lowercasing leaves as it is.
pub proof fn canonical_idempotent(name: Seq<char>)
    requires
        is_ascii_chars(name) || lowered(canonical(name)) == canonical(name),
    ensures
        canonical(canonical(name)) == canonical(name),
{
    let key = canonical(name);
    if is_ascii_chars(name) {
        assert(is_small_ascii(ascii_lowered(name))) by {
            assert forall|i: int| 0 <= i < name.len() implies '\0' <= #[trigger] ascii_lowered(
                name,
            )[i] <= '\u{7f}' && !('A' <= ascii_lowered(name)[i] <= 'Z') by {
                assert('\0' <= name[i] <= '\u{7f}');
            }
        }
        lemma_key_shape_keeps_small(ascii_lowered(name));
        assert(is_ascii_chars(key)) by {
            assert forall|i: int| 0 <= i < key.len() implies '\0' <= #[trigger] key[i]
                <= '\u{7f}' by {}
        }
        assert(ascii_lowered(key) =~= key);
    }
    lemma_key_shape_idempotent(lowered(name));
}

/// Spaces to underscores, parentheses dropped.
pub fn reshape_key(s: &str) -> (r: String)
    ensures
        r@ == key_shape(s@),
{
    let mut out = String::new();
    for c in it: s.chars()
        invariant
            it.seq() == s@,
            out@ == key_shape(s@.take(it.index() as int)),
    {
        proof {
            let next = s@.take(it.index() + 1);
            assert(next.drop_last() == s@.take(it.index() as int));
            assert(next.last() == c);
        }
        if c == ' ' {
            push_char(&mut out, '_');
        } else if c == '(' || c == ')' {
        } else {
            push_char(&mut out, c);
        }
        assert(out@ == key_shape(s@.take(it.index() as int)) + key_char(c));
    }
    assert(s@.take(s@.len() as int) == s@);
    out
}

/// The symbolic key under which a display name is looked up.
pub fn canonical_key(name: &str) -> (key: String)
    ensures
        key@ == canonical(name@),
{
    let lower = lower_text(name);
    reshape_key(lower.as_str())
}

/// Whether lowercasing leaves the symbolic key of a name as it is: the
/// condition under which the key of the key is the key, for a name with
/// characters outside ASCII.
pub fn key_is_stable(name: &str) -> (r: bool)
    ensures
        r == (lowered(canonical(name@)) == canonical(name@)),
{
    let key = canonical_key(name);
    let lower = lower_text(key.as_str());
    same_text(lower.as_str(), key.as_str())
}

/// The character sequences of a list of strings.
pub open spec fn texts(list: Seq<String>) -> Seq<Seq<char>> {
    Seq::new(list.len(), |i: int| list[i]@)
}

/// Whether two strings hold the same characters.
pub fn same_text(a: &str, b: &str) -> (r: bool)
    ensures
        r == (a@ == b@),
{
    let x = chars_of(a);
    let y = chars_of(b);
    if x.len() != y.len() {
        return false;
    }
    let mut i: usize = 0;
    while i < x.len()
        invariant
            x@ == a@,
            y@ == b@,
            x.len() == y.len(),
            i <= x.len(),
            x@.take(i as int) == y@.take(i as int),
        decreases x.len() - i,
    {
        if x[i] != y[i] {
            assert(x@[i as int] != y@[i as int]);
            return false;
        }
        assert(x@.take(i + 1) == x@.take(i as int).push(x@[i as int]));
        assert(y@.take(i + 1) == y@.take(i as int).push(y@[i as int]));
        i += 1;
    }
    assert(x@.take(x@.len() as int) == x@);
    assert(y@.take(y@.len() as int) == y@);
    true
}

/// The first position at which `name` stands in `names`, if it stands there.
pub open spec fn first_index(names: Seq<Seq<char>>, name: Seq<char>) -> Option<int>
    decreases names.len(),
{
    if names.len() == 0 {
        None
    } else {
        match first_index(names.drop_last(), name) {
            Some(i) => Some(i),
            None => if names.last() == name {
                Some(names.len() - 1)
            } else {
                None
            },
        }
    }
}

/// `first_index` finds a position that holds `name` and has no such
/// position before it, and finds one whenever there is one.
pub proof fn lemma_first_index(names: Seq<Seq<char>>, name: Seq<char>)
    ensures
        match first_index(names, name) {
            Some(i) => 0 <= i < names.len() && names[i] == name && forall|j: int|
                0 <= j < i ==> names[j] != name,
            None => forall|j: int| 0 <= j < names.len() ==> names[j] != name,
        },
    decreases names.len(),
{
    if names.len() > 0 {
        let rest = names.drop_last();
        lemma_first_index(rest, name);
        match first_index(rest, name) {
            Some(i) => {
                assert(rest[i] == names[i]);
                assert forall|j: int| 0 <= j < i implies names[j] != name by {
                    assert(rest[j] == names[j]);
                }
            },
            None => {
                assert forall|j: int| 0 <= j < names.len() - 1 implies names[j] != name by {
                    assert(rest[j] == names[j]);
                }
            },
        }
    }
}

/// A position found in a prefix is the position found in the whole.
pub proof fn lemma_first_index_prefix(names: Seq<Seq<char>>, name: Seq<char>, k: int)
    requires
        0 <= k <= names.len(),
        first_index(names.take(k), name) is Some,
    ensures
        first_index(names, name) == first_index(names.take(k), name),
    decreases names.len() - k,
{
    if k < names.len() {
        assert(names.take(k + 1).drop_last() == names.take(k));
        lemma_first_index_prefix(names, name, k + 1);
    } else {
        assert(names.take(k) == names);
    }
}

/// The first position of `name` in `names`.
pub fn find_text(names: &Vec<String>, name: &str) -> (r: Option<usize>)
    ensures
        match r {
            Some(i) => first_index(texts(names@), name@) == Some(i as int),
            None => first_index(texts(names@), name@) is None,
        },
{
    let ghost all = texts(names@);
    let mut i: usize = 0;
    while i < names.len()
        invariant
            i <= names.len(),
            all == texts(names@),
            first_index(all.take(i as int), name@) is None,
        decreases names.len() - i,
    {
        assert(all.take(i + 1).drop_last() == all.take(i as int));
        if same_text(names[i].as_str(), name) {
            proof {
                lemma_first_index_prefix(all, name@, i + 1);
            }
            return Some(i);
        }
        i += 1;
    }
    assert(all.take(names.len() as int) == all);
    None
}

/// Whether `needle` stands in `hay` from position `at` on.
pub open spec fn occurs_at(hay: Seq<char>, needle: Seq<char>, at: int) -> bool {
    0 <= at && at + needle.len() <= hay.len() && hay.subrange(at, at + needle.len()) == needle
}

/// Whether `needle` is a contiguous part of `hay`.
pub open spec fn is_part_of(needle: Seq<char>, hay: Seq<char>) -> bool {
    exists|at: int| occurs_at(hay, needle, at)
}

fn matches_at(hay: &Vec<char>, needle: &Vec<char>, at: usize) -> (r: bool)
    requires
        at + needle.len() <= hay.len(),
    ensures
        r == occurs_at(hay@, needle@, at as int),
{
    let mut k: usize = 0;
    while k < needle.len()
        invariant
            at + needle.len() <= hay.len(),
            k <= needle.len(),
            hay@.subrange(at as int, at + k) == needle@.take(k as int),
        decreases needle.len() - k,
    {
        if hay[at + k] != needle[k] {
            assert(hay@.subrange(at as int, at + needle.len())[k as int] != needle@[k as int]);
            return false;
        }
        assert(hay@.subrange(at as int, at + k + 1) == hay@.subrange(at as int, at + k).push(
            hay@[at + k],
        ));
        assert(needle@.take(k + 1) == needle@.take(k as int).push(needle@[k as int]));
        k += 1;
    }
    assert(needle@.take(needle@.len() as int) == needle@);
    true
}

/// Whether `needle` is a contiguous part of `hay`; the empty string is a
/// part of every string.
pub fn contains_text(hay: &str, needle: &str) -> (r: bool)
    ensures
        r == is_part_of(needle@, hay@),
{
    let h = chars_of(hay);
    let n = chars_of(needle);
    if n.len() > h.len() {
        return false;
    }
    let last = h.len() - n.len();
    let mut at: usize = 0;
    loop
        invariant
            h@ == hay@,
            n@ == needle@,
            n.len() <= h.len(),
            last == h.len() - n.len(),
            at <= last,
            forall|j: int| 0 <= j < at ==> !occurs_at(h@, n@, j),
        decreases last - at,
    {
        if matches_at(&h, &n, at) {
            return true;
        }
        if at == last {
            return false;
        }
        at += 1;
    }
}

/// The last position at which `name` stands in `names`, if it stands there.
pub open spec fn last_index(names: Seq<Seq<char>>, name: Seq<char>) -> Option<int>
    decreases names.len(),
{
    if names.len() == 0 {
        None
    } else if names.last() == name {
        Some(names.len() - 1)
    } else {
        last_index(names.drop_last(), name)
    }
}

/// The cells that a separator divides a line into; a line without the
/// separator is one cell, and so is the empty line.
pub open spec fn split_cells(line: Seq<char>, separator: char) -> Seq<Seq<char>>
    decreases line.len(),
{
    if line.len() == 0 {
        seq![Seq::empty()]
    } else {
        let before = split_cells(line.drop_last(), separator);
        if line.last() == separator {
            before.push(Seq::empty())
        } else {
            before.drop_last().push(before.last().push(line.last()))
        }
    }
}

/// Divides a line at each occurrence of the separator.
pub fn split_line(line: &str, separator: char) -> (cells: Vec<String>)
    ensures
        texts(cells@) == split_cells(line@, separator),
{
    let mut cells: Vec<String> = Vec::new();
    let mut current = String::new();
    assert(texts(cells@).push(current@) =~= split_cells(line@.take(0), separator));
    for c in it: line.chars()
        invariant
            it.seq() == line@,
            texts(cells@).push(current@) == split_cells(line@.take(it.index() as int), separator),
    {
        let ghost before = split_cells(line@.take(it.index() as int), separator);
        proof {
            let next = line@.take(it.index() + 1);
            assert(next.drop_last() == line@.take(it.index() as int));
            assert(next.last() == c);
            assert(before.last() == current@);
            assert(before.drop_last() =~= texts(cells@));
        }
        if c == separator {
            let ghost done = cells@;
            cells.push(current);
            current = String::new();
            assert(texts(cells@).push(current@) =~= before.push(Seq::empty()));
        } else {
            push_char(&mut current, c);
            assert(texts(cells@).push(current@) =~= before.drop_last().push(before.last().push(c)));
        }
    }
    assert(line@.take(line@.len() as int) == line@);
    let ghost done = texts(cells@);
    let ghost last = current@;
    cells.push(current);
    assert(texts(cells@) =~= done.push(last));
    cells
}

/// `s` without the run of `c` at its start.
pub open spec fn trimmed_start(s: Seq<char>, c: char) -> Seq<char>
    decreases s.len(),
{
    if s.len() > 0 && s[0] == c {
        trimmed_start(s.drop_first(), c)
    } else {
        s
    }
}

/// `s` without the run of `c` at its end.
pub open spec fn trimmed_end(s: Seq<char>, c: char) -> Seq<char>
    decreases s.len(),
{
    if s.len() > 0 && s.last() == c {
        trimmed_end(s.drop_last(), c)
    } else {
        s
    }
}

/// `s` without the runs of `c` at its two ends.
pub open spec fn trimmed(s: Seq<char>, c: char) -> Seq<char> {
    trimmed_end(trimmed_start(s, c), c)
}

/// Strips every `c` from the two ends of `s`.
pub fn trim_char(s: &str, c: char) -> (r: String)
    ensures
        r@ == trimmed(s@, c),
{
    let chars = chars_of(s);
    let n = chars.len();
    assert(chars@.subrange(0, n as int) == chars@);
    let mut a: usize = 0;
    while a < n && chars[a] == c
        invariant
            a <= n,
            n == chars.len(),
            trimmed_start(chars@, c) == trimmed_start(chars@.subrange(a as int, n as int), c),
        decreases n - a,
    {
        assert(chars@.subrange(a as int, n as int).drop_first() == chars@.subrange(
            a + 1,
            n as int,
        ));
        a += 1;
    }
    let mut b: usize = n;
    while b > a && chars[b - 1] == c
        invariant
            a <= b <= n,
            n == chars.len(),
            trimmed_end(chars@.subrange(a as int, n as int), c) == trimmed_end(
                chars@.subrange(a as int, b as int),
                c,
            ),
        decreases b,
    {
        assert(chars@.subrange(a as int, b as int).drop_last() == chars@.subrange(
            a as int,
            b - 1,
        ));
        b -= 1;
    }
    let mut out = String::new();
    let mut i: usize = a;
    while i < b
        invariant
            a <= i <= b <= n,
            n == chars.len(),
            out@ == chars@.subrange(a as int, i as int),
        decreases b - i,
    {
        push_char(&mut out, chars[i]);
        assert(chars@.subrange(a as int, i + 1) == chars@.subrange(a as int, i as int).push(
            chars@[i as int],
        ));
        i += 1;
    }
    out
}

} // verus!
