//! Text helpers: order, search, splitting and trimming.
use vstd::prelude::*;
use vstd::utf8::{decode_utf8, encode_utf8, is_ascii_chars, is_char_boundary};

verus! {

/// `String::push` appends one character.
pub assume_specification[ String::push ](s: &mut String, c: char)
    ensures
        final(s)@ == old(s)@.push(c),
;

/// `String::pop` removes the last character and returns it, or returns `None`
/// and changes nothing where there is none.
pub assume_specification[ String::pop ](s: &mut String) -> (r: Option<char>)
    ensures
        old(s)@.len() == 0 ==> r is None && final(s)@ == old(s)@,
        old(s)@.len() > 0 ==> r == Some(old(s)@.last()) && final(s)@ == old(s)@.drop_last(),
;

/// What `str::to_lowercase` makes of a text.
pub uninterp spec fn lowercase_of(s: Seq<char>) -> Seq<char>;

/// What `str::to_uppercase` makes of a text.
pub uninterp spec fn uppercase_of(s: Seq<char>) -> Seq<char>;

/// ASCII letters in lower case, other characters as they are.
pub open spec fn ascii_lowered(s: Seq<char>) -> Seq<char> {
    s.map_values(
        |c: char|
            if 'A' <= c <= 'Z' {
                (c as int + 32) as char
            } else {
                c
            },
    )
}

/// ASCII letters in upper case, other characters as they are.
pub open spec fn ascii_raised(s: Seq<char>) -> Seq<char> {
    s.map_values(
        |c: char|
            if 'a' <= c <= 'z' {
                (c as int - 32) as char
            } else {
                c
            },
    )
}

/// A text in lower case. Outside ASCII the Unicode tables decide.
pub open spec fn lower_case(s: Seq<char>) -> Seq<char> {
    if is_ascii_chars(s) {
        ascii_lowered(s)
    } else {
        lowercase_of(s)
    }
}

/// A text in upper case. Outside ASCII the Unicode tables decide.
pub open spec fn upper_case(s: Seq<char>) -> Seq<char> {
    if is_ascii_chars(s) {
        ascii_raised(s)
    } else {
        uppercase_of(s)
    }
}

/// `str::to_lowercase`: the lowercase equivalent, which depends on the text
/// alone. In an ASCII text each letter is mapped to its lower-case letter; for
/// other texts the mapping is that of the Unicode tables, and is not said here.
#[verifier::external_body]
pub(crate) fn to_lowercase(s: &str) -> (r: String)
    ensures
        r@ == lowercase_of(s@),
        is_ascii_chars(s@) ==> r@ == ascii_lowered(s@),
{
    s.to_lowercase()
}

/// `str::to_uppercase`: the uppercase equivalent, which depends on the text
/// alone. In an ASCII text each letter is mapped to its upper-case letter; for
/// other texts the mapping is that of the Unicode tables, and is not said here.
#[verifier::external_body]
pub(crate) fn to_uppercase(s: &str) -> (r: String)
    ensures
        r@ == uppercase_of(s@),
        is_ascii_chars(s@) ==> r@ == ascii_raised(s@),
{
    s.to_uppercase()
}

/// The characters of a text.
pub fn chars_of(s: &str) -> (r: Vec<char>)
    ensures
        r@ == s@,
{
    let mut out: Vec<char> = Vec::new();
    for c in it: s.chars()
        invariant
            out@.len() == it.index(),
            it.seq() == s@,
            forall|i: int| 0 <= i < out@.len() ==> out@[i] == s@[i],
    {
        out.push(c);
    }
    assert(out@ =~= s@);
    out
}

/// A copy of a text.
pub fn copy(s: &str) -> (r: String)
    ensures
        r@ == s@,
{
    s.to_owned()
}

/// `a` comes strictly before `b` when texts are ordered by code points, the
/// shorter of two texts first where one is a prefix of the other.
pub open spec fn text_before(a: Seq<char>, b: Seq<char>) -> bool
    decreases a.len(),
{
    if b.len() == 0 {
        false
    } else if a.len() == 0 {
        true
    } else if a[0] == b[0] {
        text_before(a.drop_first(), b.drop_first())
    } else {
        (a[0] as int) < (b[0] as int)
    }
}

/// How two texts relate.
#[derive(Debug, Clone, Copy, PartialEq, Eq)]
pub enum Relation {
    Before,
    Same,
    After,
}

/// Relates two texts in code point order.
pub fn relate(a: &str, b: &str) -> (r: Relation)
    ensures
        match r {
            Relation::Before => text_before(a@, b@),
            Relation::Same => a@ == b@,
            Relation::After => text_before(b@, a@),
        },
{
    let left = chars_of(a);
    let right = chars_of(b);
    let mut i: usize = 0;
    assert(a@.skip(0) =~= a@);
    assert(b@.skip(0) =~= b@);
    while i < left.len() && i < right.len()
        invariant
            i <= left@.len(),
            i <= right@.len(),
            left@ == a@,
            right@ == b@,
            forall|k: int| 0 <= k < i ==> left@[k] == right@[k],
            text_before(a@, b@) == text_before(a@.skip(i as int), b@.skip(i as int)),
            text_before(b@, a@) == text_before(b@.skip(i as int), a@.skip(i as int)),
        decreases left@.len() - i,
    {
        let x = left[i];
        let y = right[i];
        assert(a@.skip(i as int)[0] == x);
        assert(b@.skip(i as int)[0] == y);
        if x != y {
            if x < y {
                return Relation::Before;
            }
            return Relation::After;
        }
        assert(a@.skip(i as int).drop_first() =~= a@.skip(i + 1));
        assert(b@.skip(i as int).drop_first() =~= b@.skip(i + 1));
        i = i + 1;
    }
    if left.len() == right.len() {
        assert(a@ =~= b@);
        Relation::Same
    } else if left.len() < right.len() {
        Relation::Before
    } else {
        Relation::After
    }
}

/// Whether two texts are equal.
pub fn same(a: &str, b: &str) -> (r: bool)
    ensures
        r == (a@ == b@),
{
    proof {
        lemma_before_irreflexive(a@);
    }
    match relate(a, b) {
        Relation::Same => true,
        _ => false,
    }
}

/// No text comes before itself.
pub proof fn lemma_before_irreflexive(a: Seq<char>)
    ensures
        !text_before(a, a),
    decreases a.len(),
{
    if a.len() > 0 {
        lemma_before_irreflexive(a.drop_first());
    }
}

/// The order of texts is transitive.
pub proof fn lemma_before_transitive(a: Seq<char>, b: Seq<char>, c: Seq<char>)
    requires
        text_before(a, b),
        text_before(b, c),
    ensures
        text_before(a, c),
    decreases a.len(),
{
    if a.len() > 0 && a[0] == b[0] && b[0] == c[0] {
        lemma_before_transitive(a.drop_first(), b.drop_first(), c.drop_first());
    }
}

/// The order of two texts with beginnings of the same length: the beginnings
/// decide, and where they are the same, the rest does.
pub proof fn lemma_before_behind(a: Seq<char>, b: Seq<char>, s: Seq<char>, t: Seq<char>)
    requires
        a.len() == b.len(),
    ensures
        text_before(a + s, b + t) == (text_before(a, b) || (a == b && text_before(s, t))),
        (a + s == b + t) == (a == b && s == t),
    decreases a.len(),
{
    if a.len() == 0 {
        assert(a =~= b);
        assert(a + s =~= s);
        assert(b + t =~= t);
    } else {
        lemma_before_behind(a.drop_first(), b.drop_first(), s, t);
        assert((a + s).drop_first() =~= a.drop_first() + s);
        assert((b + t).drop_first() =~= b.drop_first() + t);
        if a[0] == b[0] {
            assert(a =~= seq![a[0]] + a.drop_first());
            assert(b =~= seq![b[0]] + b.drop_first());
            assert(a + s =~= seq![a[0]] + (a + s).drop_first());
            assert(b + t =~= seq![b[0]] + (b + t).drop_first());
        } else {
            assert((a + s)[0] == a[0] && (b + t)[0] == b[0]);
        }
    }
}

/// Of two texts one comes before the other, or they are equal.
pub proof fn lemma_before_total(a: Seq<char>, b: Seq<char>)
    ensures
        text_before(a, b) || text_before(b, a) || a == b,
    decreases a.len(),
{
    if a.len() > 0 && b.len() > 0 && a[0] == b[0] {
        lemma_before_total(a.drop_first(), b.drop_first());
        if a.drop_first() == b.drop_first() {
            assert(a =~= seq![a[0]] + a.drop_first());
            assert(b =~= seq![a[0]] + a.drop_first());
        }
    } else if a.len() == 0 && b.len() == 0 {
        assert(a =~= b);
    }
}

/// A character of the Unicode property `White_Space`.
pub open spec fn white_space(c: char) -> bool {
    let n = c as u32;
    ||| 0x9 <= n <= 0xd
    ||| n == 0x20
    ||| n == 0x85
    ||| n == 0xa0
    ||| n == 0x1680
    ||| 0x2000 <= n <= 0x200a
    ||| n == 0x2028
    ||| n == 0x2029
    ||| n == 0x202f
    ||| n == 0x205f
    ||| n == 0x3000
}

/// Whether a character is white space.
pub fn is_white_space(c: char) -> (r: bool)
    ensures
        r == white_space(c),
{
    let n: u32 = c as u32;
    (0x9 <= n && n <= 0xd) || n == 0x20 || n == 0x85 || n == 0xa0 || n == 0x1680 || (0x2000 <= n
        && n <= 0x200a) || n == 0x2028 || n == 0x2029 || n == 0x202f || n == 0x205f || n == 0x3000
}

/// A text without its leading white space.
pub open spec fn trimmed_start(s: Seq<char>) -> Seq<char>
    decreases s.len(),
{
    if s.len() > 0 && white_space(s[0]) {
        trimmed_start(s.drop_first())
    } else {
        s
    }
}

/// A text without its trailing white space.
pub open spec fn trimmed_end(s: Seq<char>) -> Seq<char>
    decreases s.len(),
{
    if s.len() > 0 && white_space(s.last()) {
        trimmed_end(s.drop_last())
    } else {
        s
    }
}

/// A text without white space at either end.
pub open spec fn trimmed(s: Seq<char>) -> Seq<char> {
    trimmed_end(trimmed_start(s))
}

/// Removes trailing white space.
pub fn trim_end(s: &str) -> (r: &str)
    ensures
        r@ == trimmed_end(s@),
{
    let chars = chars_of(s);
    let mut end: usize = chars.len();
    assert(s@.take(end as int) =~= s@);
    while end > 0 && is_white_space(chars[end - 1])
        invariant
            end <= chars@.len(),
            chars@ == s@,
            trimmed_end(s@) == trimmed_end(s@.take(end as int)),
        decreases end,
    {
        assert(s@.take(end as int).drop_last() =~= s@.take(end - 1));
        assert(s@.take(end as int).last() == chars@[end - 1]);
        end = end - 1;
    }
    assert(end > 0 ==> s@.take(end as int).last() == chars@[end - 1]);
    assert(s@.subrange(0, end as int) =~= s@.take(end as int));
    s.substring_char(0, end)
}

/// Removes white space at both ends.
pub fn trim(s: &str) -> (r: &str)
    ensures
        r@ == trimmed(s@),
{
    let chars = chars_of(s);
    let mut start: usize = 0;
    assert(s@.skip(0) =~= s@);
    while start < chars.len() && is_white_space(chars[start])
        invariant
            start <= chars@.len(),
            chars@ == s@,
            trimmed_start(s@) == trimmed_start(s@.skip(start as int)),
        decreases chars@.len() - start,
    {
        assert(s@.skip(start as int).drop_first() =~= s@.skip(start + 1));
        assert(s@.skip(start as int)[0] == chars@[start as int]);
        start = start + 1;
    }
    assert(start < chars@.len() ==> s@.skip(start as int)[0] == chars@[start as int]);
    assert(s@.subrange(start as int, chars@.len() as int) =~= s@.skip(start as int));
    trim_end(s.substring_char(start, chars.len()))
}

/// The position of the last `c` in a text, or -1 where there is none.
pub open spec fn last_position(s: Seq<char>, c: char) -> int
    decreases s.len(),
{
    if s.len() == 0 {
        -1
    } else if s.last() == c {
        s.len() - 1
    } else {
        last_position(s.drop_last(), c)
    }
}

/// The part of a text behind its last `c`, or the whole text without one.
pub open spec fn after_last(s: Seq<char>, c: char) -> Seq<char> {
    s.skip(last_position(s, c) + 1)
}

/// Bounds of `last_position`.
pub proof fn lemma_last_position(s: Seq<char>, c: char)
    ensures
        -1 <= last_position(s, c) < s.len(),
        last_position(s, c) >= 0 ==> s[last_position(s, c)] == c,
        forall|i: int| last_position(s, c) < i < s.len() ==> s[i] != c,
    decreases s.len(),
{
    if s.len() > 0 && s.last() != c {
        lemma_last_position(s.drop_last(), c);
        assert forall|i: int| last_position(s, c) < i < s.len() implies s[i] != c by {
            if i < s.len() - 1 {
                assert(s.drop_last()[i] == s[i]);
            }
        }
        if last_position(s, c) >= 0 {
            assert(s.drop_last()[last_position(s, c)] == s[last_position(s, c)]);
        }
    }
}

/// The last piece of a text that is split at each `c`.
pub fn last_piece(s: &str, c: char) -> (r: &str)
    ensures
        r@ == after_last(s@, c),
{
    let chars = chars_of(s);
    let mut start: usize = chars.len();
    assert(s@.take(start as int) =~= s@);
    while start > 0 && chars[start - 1] != c
        invariant
            start <= chars@.len(),
            chars@ == s@,
            last_position(s@, c) == last_position(s@.take(start as int), c),
        decreases start,
    {
        assert(s@.take(start as int).drop_last() =~= s@.take(start - 1));
        assert(s@.take(start as int).last() == chars@[start - 1]);
        start = start - 1;
    }
    assert(start > 0 ==> s@.take(start as int).last() == chars@[start - 1]);
    assert(last_position(s@, c) == start - 1);
    assert(s@.subrange(start as int, chars@.len() as int) =~= s@.skip(start as int));
    s.substring_char(start, chars.len())
}

/// The position of the first `c` in a text, or its length where there is none.
pub open spec fn first_position(s: Seq<char>, c: char) -> int
    decreases s.len(),
{
    if s.len() == 0 || s[0] == c {
        0
    } else {
        1 + first_position(s.drop_first(), c)
    }
}

/// Bounds of `first_position`.
pub proof fn lemma_first_position(s: Seq<char>, c: char)
    ensures
        0 <= first_position(s, c) <= s.len(),
        first_position(s, c) < s.len() ==> s[first_position(s, c)] == c,
        first_position(s, c) < s.len() <==> s.contains(c),
    decreases s.len(),
{
    if s.len() > 0 && s[0] != c {
        lemma_first_position(s.drop_first(), c);
        if s.contains(c) {
            let i = choose|i: int| 0 <= i < s.len() && s[i] == c;
            assert(s.drop_first()[i - 1] == c);
        }
        if first_position(s, c) < s.len() {
            assert(s[first_position(s, c)] == c);
        }
    } else if s.len() > 0 {
        assert(s[0] == c);
    }
}

/// The position of the first `c`, or the number of characters without one.
pub fn find_char(s: &str, c: char) -> (r: usize)
    ensures
        r == first_position(s@, c),
        r <= s@.len(),
{
    let chars = chars_of(s);
    let mut i: usize = 0;
    assert(s@.skip(0) =~= s@);
    while i < chars.len() && chars[i] != c
        invariant
            i <= chars@.len(),
            chars@ == s@,
            first_position(s@, c) == i + first_position(s@.skip(i as int), c),
        decreases chars@.len() - i,
    {
        assert(s@.skip(i as int).drop_first() =~= s@.skip(i + 1));
        assert(s@.skip(i as int)[0] == chars@[i as int]);
        i = i + 1;
    }
    assert(i < chars@.len() ==> s@.skip(i as int)[0] == chars@[i as int]);
    i
}

/// Whether a text holds `c`.
pub fn contains_char(s: &str, c: char) -> (r: bool)
    ensures
        r == s@.contains(c),
{
    proof {
        lemma_first_position(s@, c);
    }
    let n = s.unicode_len();
    find_char(s, c) < n
}

/// Splits a text at its first `c`.
pub fn split_once(s: &str, c: char) -> (r: Option<(&str, &str)>)
    ensures
        match r {
            Some((head, tail)) => s@.contains(c) && head@ == s@.take(first_position(s@, c)) && tail@
                == s@.skip(first_position(s@, c) + 1),
            None => !s@.contains(c),
        },
{
    proof {
        lemma_first_position(s@, c);
    }
    let n = s.unicode_len();
    let i = find_char(s, c);
    if i < n {
        assert(s@.subrange(0, i as int) =~= s@.take(i as int));
        assert(s@.subrange(i + 1, n as int) =~= s@.skip(i + 1));
        Some((s.substring_char(0, i), s.substring_char(i + 1, n)))
    } else {
        None
    }
}

/// A text without its leading `c`s.
pub open spec fn without_leading(s: Seq<char>, c: char) -> Seq<char>
    decreases s.len(),
{
    if s.len() > 0 && s[0] == c {
        without_leading(s.drop_first(), c)
    } else {
        s
    }
}

/// Removes the leading `c`s.
pub fn trim_leading(s: &str, c: char) -> (r: &str)
    ensures
        r@ == without_leading(s@, c),
{
    let chars = chars_of(s);
    let mut start: usize = 0;
    assert(s@.skip(0) =~= s@);
    while start < chars.len() && chars[start] == c
        invariant
            start <= chars@.len(),
            chars@ == s@,
            without_leading(s@, c) == without_leading(s@.skip(start as int), c),
        decreases chars@.len() - start,
    {
        assert(s@.skip(start as int).drop_first() =~= s@.skip(start + 1));
        assert(s@.skip(start as int)[0] == chars@[start as int]);
        start = start + 1;
    }
    assert(start < chars@.len() ==> s@.skip(start as int)[0] == chars@[start as int]);
    assert(s@.subrange(start as int, chars@.len() as int) =~= s@.skip(start as int));
    s.substring_char(start, chars.len())
}

/// Whether a text starts with `prefix`.
pub open spec fn has_prefix(s: Seq<char>, prefix: Seq<char>) -> bool {
    prefix.len() <= s.len() && s.take(prefix.len() as int) == prefix
}

/// What follows `prefix`, where the text starts with it.
pub fn strip_prefix<'a>(s: &'a str, prefix: &str) -> (r: Option<&'a str>)
    ensures
        match r {
            Some(rest) => has_prefix(s@, prefix@) && rest@ == s@.skip(prefix@.len() as int),
            None => !has_prefix(s@, prefix@),
        },
{
    let n = s.unicode_len();
    let p = prefix.unicode_len();
    if p > n {
        return None;
    }
    let head = s.substring_char(0, p);
    assert(s@.subrange(0, p as int) =~= s@.take(p as int));
    if same(head, prefix) {
        assert(s@.subrange(p as int, n as int) =~= s@.skip(p as int));
        Some(s.substring_char(p, n))
    } else {
        None
    }
}

/// Where the last run of characters without white space starts.
pub open spec fn last_word_start(s: Seq<char>) -> int
    decreases s.len(),
{
    if s.len() == 0 || white_space(s.last()) {
        s.len() as int
    } else {
        last_word_start(s.drop_last())
    }
}

/// The words of a text: its longest runs of characters without white space.
pub open spec fn words(s: Seq<char>) -> Seq<Seq<char>>
    decreases s.len(),
{
    if s.len() == 0 {
        Seq::empty()
    } else if white_space(s.last()) {
        words(s.drop_last())
    } else {
        proof {
            lemma_last_word_start(s.drop_last());
        }
        words(s.take(last_word_start(s))).push(s.skip(last_word_start(s)))
    }
}

/// Bounds of `last_word_start`.
pub proof fn lemma_last_word_start(s: Seq<char>)
    ensures
        0 <= last_word_start(s) <= s.len(),
    decreases s.len(),
{
    if s.len() > 0 && !white_space(s.last()) {
        lemma_last_word_start(s.drop_last());
    }
}

/// The texts that the strings of a list hold.
pub open spec fn texts(v: Seq<String>) -> Seq<Seq<char>> {
    v.map_values(|s: String| s@)
}

/// Splits a text into its words.
pub fn split_words(s: &str) -> (r: Vec<String>)
    ensures
        texts(r@) == words(s@),
{
    let chars = chars_of(s);
    let mut out: Vec<String> = Vec::new();
    let mut i: usize = 0;
    let mut start: usize = 0;
    proof {
        assert(s@.take(0) =~= Seq::<char>::empty());
        assert(texts(out@) =~= words(s@.take(0)));
    }
    while i < chars.len()
        invariant
            start <= i <= chars@.len(),
            chars@ == s@,
            last_word_start(s@.take(i as int)) == start,
            texts(out@) == words(s@.take(start as int)),
        decreases chars@.len() - i,
    {
        let ghost before = s@.take(i as int);
        let ghost after = s@.take(i + 1);
        assert(after.drop_last() =~= before);
        assert(after.last() == chars@[i as int]);
        if is_white_space(chars[i]) {
            assert(before.skip(start as int) =~= s@.subrange(start as int, i as int));
            assert(before.take(start as int) =~= s@.take(start as int));
            if start < i {
                let ghost old_out = out@;
                let word = copy(s.substring_char(start, i));
                out.push(word);
                proof {
                    assert(texts(out@) =~= texts(old_out).push(word@));
                    assert(before.len() > 0);
                    assert(!white_space(before.last()));
                }
            } else {
                assert(before =~= s@.take(start as int));
            }
            assert(texts(out@) == words(before));
            proof {
                lemma_last_word_start(after);
            }
            assert(words(after) == words(before));
            start = i + 1;
        }
        i = i + 1;
    }
    assert(s@.take(i as int) =~= s@);
    assert(s@.skip(start as int) =~= s@.subrange(start as int, i as int));
    if start < i {
        let ghost old_out = out@;
        let word = copy(s.substring_char(start, i));
        out.push(word);
        assert(texts(out@) =~= texts(old_out).push(word@));
    }
    out
}

/// Two texts in a row.
pub fn cat2(a: &str, b: &str) -> (r: String)
    ensures
        r@ == a@ + b@,
{
    let mut out = copy(a);
    out.append(b);
    out
}

/// Three texts in a row.
pub fn cat3(a: &str, b: &str, c: &str) -> (r: String)
    ensures
        r@ == a@ + b@ + c@,
{
    let mut out = cat2(a, b);
    out.append(c);
    out
}

/// Four texts in a row.
pub fn cat4(a: &str, b: &str, c: &str, d: &str) -> (r: String)
    ensures
        r@ == a@ + b@ + c@ + d@,
{
    let mut out = cat3(a, b, c);
    out.append(d);
    out
}

/// Texts put together in their order.
pub open spec fn concatenated(parts: Seq<Seq<char>>) -> Seq<char>
    decreases parts.len(),
{
    if parts.len() == 0 {
        Seq::empty()
    } else {
        concatenated(parts.drop_last()) + parts.last()
    }
}

/// Putting one more text behind the others.
pub proof fn lemma_concatenated_push(parts: Seq<Seq<char>>, part: Seq<char>)
    ensures
        concatenated(parts.push(part)) == concatenated(parts) + part,
{
    assert(parts.push(part).drop_last() =~= parts);
}

/// Texts put together in their order, with another between any two.
pub open spec fn joined(parts: Seq<Seq<char>>, between: Seq<char>) -> Seq<char>
    decreases parts.len(),
{
    if parts.len() == 0 {
        Seq::empty()
    } else if parts.len() == 1 {
        parts[0]
    } else {
        joined(parts.drop_last(), between) + between + parts.last()
    }
}

/// Puts texts together, with another between any two.
pub fn join(parts: &Vec<String>, between: &str) -> (r: String)
    ensures
        r@ == joined(texts(parts@), between@),
{
    let ghost all = texts(parts@);
    let mut out = String::new();
    let mut i: usize = 0;
    assert(out@ =~= joined(all.take(0), between@));
    while i < parts.len()
        invariant
            i <= parts@.len(),
            all == texts(parts@),
            out@ == joined(all.take(i as int), between@),
        decreases parts@.len() - i,
    {
        assert(all.take(i + 1).drop_last() =~= all.take(i as int));
        assert(all.take(i + 1).last() == parts@[i as int]@);
        if i > 0 {
            out.append(between);
        }
        out.append(parts[i].as_str());
        i = i + 1;
        assert(out@ =~= joined(all.take(i as int), between@));
    }
    assert(all.take(i as int) =~= all);
    out
}

/// A text filled up with spaces to a width.
pub open spec fn padded(s: Seq<char>, width: int) -> Seq<char> {
    if s.len() < width {
        s + Seq::new((width - s.len()) as nat, |i: int| ' ')
    } else {
        s
    }
}

/// Fills a text up with spaces to a width.
pub fn pad(s: &str, width: usize) -> (r: String)
    ensures
        r@ == padded(s@, width as int),
{
    let mut out = copy(s);
    let mut n: usize = s.unicode_len();
    assert(s@ =~= s@ + Seq::new(0, |i: int| ' '));
    while n < width
        invariant
            s@.len() <= n,
            n <= width || n == s@.len(),
            out@ == s@ + Seq::new((n - s@.len()) as nat, |i: int| ' '),
        decreases width - n,
    {
        out.push(' ');
        n = n + 1;
        assert(out@ =~= s@ + Seq::new((n - s@.len()) as nat, |i: int| ' '));
    }
    assert(out@ =~= padded(s@, width as int));
    out
}

/// The first bytes of a text, or all of a shorter one.
pub open spec fn first_bytes(s: Seq<char>, n: int) -> Seq<char> {
    if encode_utf8(s).len() > n {
        decode_utf8(encode_utf8(s).take(n))
    } else {
        s
    }
}

/// A text that can be cut after some bytes: a longer one has a character that
/// ends there.
pub open spec fn can_cut(s: Seq<char>, n: int) -> bool {
    encode_utf8(s).len() > n ==> is_char_boundary(encode_utf8(s), n)
}

/// Cuts a text after its first bytes.
pub fn cut(s: &str, n: usize) -> (r: &str)
    requires
        can_cut(s@, n as int),
    ensures
        r@ == first_bytes(s@, n as int),
{
    broadcast use vstd::utf8::encode_utf8_decode_utf8;

    if s.as_bytes().len() > n {
        let (head, _) = s.split_at(n);
        proof {
            assert(encode_utf8(head@) =~= encode_utf8(s@).take(n as int));
        }
        head
    } else {
        s
    }
}

/// A text in ASCII can be cut anywhere, and its first bytes are its first
/// characters.
pub proof fn lemma_cut_ascii(s: Seq<char>, n: int)
    requires
        is_ascii_chars(s),
        0 <= n,
    ensures
        can_cut(s, n),
        first_bytes(s, n) == if s.len() > n {
            s.take(n)
        } else {
            s
        },
{
    broadcast use vstd::utf8::encode_utf8_decode_utf8;
    broadcast use vstd::utf8::is_ascii_chars_encode_utf8;

    if s.len() > n {
        let head = s.take(n);
        let bytes = encode_utf8(s);
        assert(is_ascii_chars(head));
        assert(encode_utf8(head) =~= bytes.take(n));
        vstd::utf8::encode_utf8_valid_utf8(s);
        vstd::utf8::is_ascii_chars_nat_bound(s);
        vstd::utf8::is_char_boundary_iff_not_is_continuation_byte(bytes, n);
        assert(bytes[n] < 0x80);
        vstd::utf8::utf8_byte_ranges_bitwise(bytes[n]);
    }
}

/// Trimming takes white space off the two ends, all of it and nothing else.
pub proof fn law_trimming_takes_white_space(s: Seq<char>) -> (ends: (Seq<char>, Seq<char>))
    ensures
        s == ends.0 + trimmed(s) + ends.1,
        forall|i: int| 0 <= i < ends.0.len() ==> white_space(#[trigger] ends.0[i]),
        forall|i: int| 0 <= i < ends.1.len() ==> white_space(#[trigger] ends.1[i]),
        trimmed(s).len() > 0 ==> !white_space(trimmed(s)[0]) && !white_space(trimmed(s).last()),
{
    let head = lemma_trimmed_start(s);
    let tail = law_trimming_takes_trailing(trimmed_start(s));
    assert(s =~= head + trimmed(s) + tail);
    if trimmed(s).len() > 0 {
        assert(trimmed_start(s)[0] == trimmed(s)[0]);
    }
    (head, tail)
}

/// What is trimmed off the end of a text is white space, and the rest does not end in any.
pub proof fn law_trimming_takes_trailing(s: Seq<char>) -> (tail: Seq<char>)
    ensures
        s == trimmed_end(s) + tail,
        forall|i: int| 0 <= i < tail.len() ==> white_space(#[trigger] tail[i]),
        trimmed_end(s).len() > 0 ==> !white_space(trimmed_end(s).last()),
    decreases s.len(),
{
    if s.len() > 0 && white_space(s.last()) {
        let tail = law_trimming_takes_trailing(s.drop_last());
        assert(s =~= s.drop_last().push(s.last()));
        assert(s =~= trimmed_end(s) + tail.push(s.last()));
        tail.push(s.last())
    } else {
        assert(s =~= trimmed_end(s) + Seq::<char>::empty());
        Seq::empty()
    }
}

proof fn lemma_trimmed_start(s: Seq<char>) -> (head: Seq<char>)
    ensures
        s == head + trimmed_start(s),
        forall|i: int| 0 <= i < head.len() ==> white_space(#[trigger] head[i]),
        trimmed_start(s).len() > 0 ==> !white_space(trimmed_start(s)[0]),
    decreases s.len(),
{
    if s.len() > 0 && white_space(s[0]) {
        let head = lemma_trimmed_start(s.drop_first());
        assert(s =~= seq![s[0]] + s.drop_first());
        assert(s =~= seq![s[0]] + head + trimmed_start(s));
        seq![s[0]] + head
    } else {
        assert(s =~= Seq::<char>::empty() + trimmed_start(s));
        Seq::empty()
    }
}

/// Spaces, tabs and the ends of lines are white space; the visible characters of ASCII are
/// not.
pub proof fn law_white_space_of_ascii(c: char)
    ensures
        white_space(' ') && white_space('\t') && white_space('\n') && white_space('\r'),
        0x20 < c as u32 && (c as u32) < 0x7f ==> !white_space(c),
        (c as u32) < 0x80 && white_space(c) ==> c == ' ' || 0x9 <= c as u32 <= 0xd,
{
}

/// White space separates words: the words of two texts with white space between them are
/// those of the one and then those of the other. A text without any is one word.
pub proof fn law_white_space_separates_words(a: Seq<char>, c: char, b: Seq<char>)
    ensures
        white_space(c) ==> words(a + seq![c] + b) == words(a) + words(b),
        a.len() > 0 && (forall|i: int| 0 <= i < a.len() ==> !white_space(#[trigger] a[i]))
            ==> words(a) == seq![a],
        words(Seq::<char>::empty()).len() == 0,
    decreases b.len(),
{
    if white_space(c) {
        lemma_words_apart(a, c, b);
    }
    if a.len() > 0 && (forall|i: int| 0 <= i < a.len() ==> !white_space(#[trigger] a[i])) {
        lemma_one_word(a);
        assert(a.take(0) =~= Seq::<char>::empty());
        assert(a.skip(0) =~= a);
        assert(!white_space(a[a.len() - 1]));
        assert(words(a.take(0)).len() == 0);
        assert(words(a) =~= seq![a]);
    }
}

proof fn lemma_one_word(a: Seq<char>)
    requires
        forall|i: int| 0 <= i < a.len() ==> !white_space(#[trigger] a[i]),
    ensures
        last_word_start(a) == 0,
    decreases a.len(),
{
    if a.len() > 0 {
        assert forall|i: int| 0 <= i < a.drop_last().len() implies !white_space(
            #[trigger] a.drop_last()[i],
        ) by {
            assert(!white_space(a[i]));
        }
        lemma_one_word(a.drop_last());
    }
}

proof fn lemma_words_apart(a: Seq<char>, c: char, b: Seq<char>)
    requires
        white_space(c),
    ensures
        words(a + seq![c] + b) == words(a) + words(b),
    decreases b.len(),
{
    let s = a + seq![c] + b;
    if b.len() == 0 {
        assert(s.drop_last() =~= a);
        assert(s.last() == c);
        assert(words(a) + words(b) =~= words(a));
    } else if white_space(b.last()) {
        assert(s.drop_last() =~= a + seq![c] + b.drop_last());
        assert(s.last() == b.last());
        lemma_words_apart(a, c, b.drop_last());
    } else {
        let n = a.len() + 1;
        lemma_word_start_apart(a, c, b);
        lemma_last_word_start(b);
        let k = last_word_start(b);
        lemma_words_apart(a, c, b.take(k));
        assert(s.take(n + k) =~= a + seq![c] + b.take(k));
        assert(s.skip(n + k) =~= b.skip(k));
        assert(s.last() == b.last());
        assert(words(s) =~= words(a) + words(b));
    }
}

proof fn lemma_word_start_apart(a: Seq<char>, c: char, b: Seq<char>)
    requires
        white_space(c),
    ensures
        last_word_start(a + seq![c] + b) == a.len() + 1 + last_word_start(b),
        b.len() > 0 && !white_space(b.last()) ==> last_word_start(b) < b.len(),
    decreases b.len(),
{
    let s = a + seq![c] + b;
    if b.len() == 0 {
        assert(s.last() == c);
    } else {
        assert(s.last() == b.last());
        if !white_space(b.last()) {
            assert(s.drop_last() =~= a + seq![c] + b.drop_last());
            lemma_word_start_apart(a, c, b.drop_last());
            lemma_last_word_start(b.drop_last());
        }
    }
}

/// Texts are ordered by the first character in which they differ, and a text comes before
/// all that begin with it.
pub proof fn law_first_difference_decides(head: Seq<char>, a: char, s: Seq<char>, b: char, t: Seq<char>)
    ensures
        a != b ==> (text_before(head + seq![a] + s, head + seq![b] + t) <==> (a as u32) < (
        b as u32)),
        text_before(head, head + seq![b] + t),
    decreases head.len(),
{
    let x = head + seq![a] + s;
    let y = head + seq![b] + t;
    if head.len() > 0 {
        law_first_difference_decides(head.drop_first(), a, s, b, t);
        assert(x.drop_first() =~= head.drop_first() + seq![a] + s);
        assert(y.drop_first() =~= head.drop_first() + seq![b] + t);
        assert(x[0] == head[0] && y[0] == head[0]);
    } else {
        assert(x[0] == a && y[0] == b);
    }
}

/// What stands behind the last of a character, and before and behind the first, put
/// together again around it gives the text back.
pub proof fn law_pieces_make_up_the_text(a: Seq<char>, c: char, b: Seq<char>)
    ensures
        !b.contains(c) ==> after_last(a + seq![c] + b, c) == b,
        !b.contains(c) ==> after_last(b, c) == b,
        !a.contains(c) ==> first_position(a + seq![c] + b, c) == a.len(),
        a.len() == 0 || a[0] != c ==> without_leading(a, c) == a,
        without_leading(seq![c] + a, c) == without_leading(a, c),
    decreases a.len(),
{
    let s = a + seq![c] + b;
    assert(s[a.len() as int] == c);
    lemma_last_position(s, c);
    lemma_last_position(b, c);
    let p = last_position(s, c);
    if !b.contains(c) {
        if p > a.len() {
            assert(b[p - a.len() - 1] == c);
        }
        assert(s.skip(p + 1) =~= b);
        if last_position(b, c) >= 0 {
            assert(b[last_position(b, c)] == c);
        }
        assert(b.skip(0) =~= b);
    }
    if !a.contains(c) && a.len() > 0 {
        assert(a[0] != c) by {
            assert(a.contains(a[0]));
        }
        let rest = a.drop_first();
        assert(!rest.contains(c)) by {
            if rest.contains(c) {
                let i = choose|i: int| 0 <= i < rest.len() && rest[i] == c;
                assert(a[i + 1] == c);
            }
        }
        law_pieces_make_up_the_text(rest, c, b);
        assert(s.drop_first() =~= rest + seq![c] + b);
    }
    assert((seq![c] + a).drop_first() =~= a);
}

/// A text starts with another exactly where something can be put behind the other to make
/// it up.
pub proof fn law_prefix_and_rest(prefix: Seq<char>, rest: Seq<char>, s: Seq<char>)
    ensures
        has_prefix(prefix + rest, prefix),
        (prefix + rest).skip(prefix.len() as int) == rest,
        has_prefix(s, prefix) <==> s == prefix + s.skip(prefix.len() as int) && prefix.len()
            <= s.len(),
{
    assert((prefix + rest).take(prefix.len() as int) =~= prefix);
    assert((prefix + rest).skip(prefix.len() as int) =~= rest);
    if prefix.len() <= s.len() {
        assert(s =~= s.take(prefix.len() as int) + s.skip(prefix.len() as int));
        if s == prefix + s.skip(prefix.len() as int) {
            assert(s.take(prefix.len() as int) =~= prefix);
        }
    }
}

/// Texts that are put together keep their order, each of them once; joined ones have the
/// separator between any two, and nowhere else.
pub proof fn law_joining_keeps_all(parts: Seq<Seq<char>>, last: Seq<char>, between: Seq<char>)
    ensures
        concatenated(Seq::empty()).len() == 0,
        concatenated(parts.push(last)) == concatenated(parts) + last,
        joined(Seq::empty(), between).len() == 0,
        joined(seq![last], between) == last,
        parts.len() > 0 ==> joined(parts.push(last), between) == joined(parts, between) + between
            + last,
{
    assert(parts.push(last).drop_last() =~= parts);
}

/// A text is filled up with spaces behind it, to the width and no further.
pub proof fn law_padding_fills_up(s: Seq<char>, width: int, i: int)
    ensures
        s.len() >= width ==> padded(s, width) == s,
        s.len() < width ==> padded(s, width).len() == width,
        padded(s, width).take(s.len() as int) == s,
        s.len() <= i < padded(s, width).len() ==> padded(s, width)[i] == ' ',
{
    assert(padded(s, width).take(s.len() as int) =~= s);
}

/// Case does not matter to a text in either case: raising and lowering ASCII letters only
/// changes letters, and one undoes the other.
pub proof fn law_ascii_case(s: Seq<char>, i: int)
    requires
        is_ascii_chars(s),
        0 <= i < s.len(),
    ensures
        lower_case(s).len() == s.len() && upper_case(s).len() == s.len(),
        'A' <= s[i] <= 'Z' ==> lower_case(s)[i] as u32 == s[i] as u32 + 32 && upper_case(s)[i]
            == s[i],
        'a' <= s[i] <= 'z' ==> upper_case(s)[i] as u32 == s[i] as u32 - 32 && lower_case(s)[i]
            == s[i],
        !('A' <= s[i] <= 'Z') && !('a' <= s[i] <= 'z') ==> lower_case(s)[i] == s[i] && upper_case(
            s,
        )[i] == s[i],
{
}

} // verus!
