//! Text primitives: the operations on characters and strings that the rest of
//! the library is built on. Every string is modelled by its sequence of
//! characters, and every list of strings by the sequence of those models.
use vstd::prelude::*;

verus! {

broadcast use vstd::string::group_string_axioms;

/// `String::push`: the string grows by the one character, at its end.
pub assume_specification[ String::push ](s: &mut String, c: char)
    ensures
        final(s)@ == old(s)@.push(c),
;

/// What `str::to_lowercase` makes of a text (the Unicode `Lowercase` mapping).
pub uninterp spec fn unicode_lowercase(s: Seq<char>) -> Seq<char>;

/// Whether `char::is_alphanumeric` holds of a character (the Unicode
/// `Alphabetic` and `Numeric` properties).
pub uninterp spec fn unicode_alphanumeric(c: char) -> bool;

/// `str::to_lowercase`: the result is a function of the text alone; on a text of
/// ASCII characters it is the text with its capital letters made small.
#[verifier::external_body]
fn std_lowercase(s: &str) -> (r: String)
    ensures
        r@ == unicode_lowercase(s@),
        ascii_text(s@) ==> r@ == ascii_lowercase(s@),
{
    s.to_lowercase()
}

/// `char::is_alphanumeric`: the result is a function of the character alone; on
/// the ASCII characters it is the set of letters and digits.
#[verifier::external_body]
fn std_alphanumeric(c: char) -> (r: bool)
    ensures
        r == unicode_alphanumeric(c),
        ascii_char(c) ==> r == ascii_alphanumeric(c),
{
    c.is_alphanumeric()
}

pub open spec fn ascii_char(c: char) -> bool {
    c < '\u{80}'
}

/// Whether a text holds ASCII characters only.
pub open spec fn ascii_text(s: Seq<char>) -> bool {
    forall|i: int| 0 <= i < s.len() ==> ascii_char(#[trigger] s[i])
}

/// A text in lower case, by the letters of all scripts.
pub open spec fn lowercase(s: Seq<char>) -> Seq<char> {
    if ascii_text(s) {
        ascii_lowercase(s)
    } else {
        unicode_lowercase(s)
    }
}

/// Whether a character is a letter or a digit, of any script.
pub open spec fn alphanumeric(c: char) -> bool {
    if ascii_char(c) {
        ascii_alphanumeric(c)
    } else {
        unicode_alphanumeric(c)
    }
}

pub fn to_lowercase(s: &str) -> (r: String)
    ensures
        r@ == lowercase(s@),
{
    std_lowercase(s)
}

pub fn is_alphanumeric(c: char) -> (r: bool)
    ensures
        r == alphanumeric(c),
{
    std_alphanumeric(c)
}

/// `String::from_utf8`: there is a text where the bytes are UTF-8, and it is the
/// one that they encode.
#[verifier::external_body]
pub(crate) fn from_utf8(bytes: &Vec<u8>) -> (r: Option<String>)
    ensures
        match r {
            Some(s) => vstd::utf8::valid_utf8(bytes@) && s@ == vstd::utf8::decode_utf8(bytes@),
            None => !vstd::utf8::valid_utf8(bytes@),
        },
{
    String::from_utf8(bytes.to_vec()).ok()
}

// ---------------------------------------------------------------------------
// Characters
// ---------------------------------------------------------------------------

/// ASCII letters and digits.
pub open spec fn ascii_alphanumeric(c: char) -> bool {
    ('0' <= c && c <= '9') || ('a' <= c && c <= 'z') || ('A' <= c && c <= 'Z')
}

pub fn is_ascii_alphanumeric(c: char) -> (r: bool)
    ensures
        r == ascii_alphanumeric(c),
{
    ('0' <= c && c <= '9') || ('a' <= c && c <= 'z') || ('A' <= c && c <= 'Z')
}

/// The Unicode `White_Space` property.
pub open spec fn whitespace(c: char) -> bool {
    ('\u{9}' <= c && c <= '\u{d}') || c == ' ' || c == '\u{85}' || c == '\u{a0}' || c == '\u{1680}'
        || ('\u{2000}' <= c && c <= '\u{200a}') || c == '\u{2028}' || c == '\u{2029}' || c
        == '\u{202f}' || c == '\u{205f}' || c == '\u{3000}'
}

pub fn is_whitespace(c: char) -> (r: bool)
    ensures
        r == whitespace(c),
{
    ('\u{9}' <= c && c <= '\u{d}') || c == ' ' || c == '\u{85}' || c == '\u{a0}' || c == '\u{1680}'
        || ('\u{2000}' <= c && c <= '\u{200a}') || c == '\u{2028}' || c == '\u{2029}' || c
        == '\u{202f}' || c == '\u{205f}' || c == '\u{3000}'
}

/// The lower-case form of an ASCII letter; any other character is itself.
pub open spec fn ascii_lower(c: char) -> char {
    if 'A' <= c && c <= 'Z' {
        (c as u32 + 32) as char
    } else {
        c
    }
}

pub fn to_ascii_lower(c: char) -> (r: char)
    ensures
        r == ascii_lower(c),
{
    if 'A' <= c && c <= 'Z' {
        let code: u8 = c as u8;
        (code + 32) as char
    } else {
        c
    }
}

// ---------------------------------------------------------------------------
// Conversions
// ---------------------------------------------------------------------------

/// The models of a list of strings.
pub open spec fn texts(v: Seq<String>) -> Seq<Seq<char>> {
    v.map_values(|s: String| s@)
}

/// The characters of a string.
pub fn chars_of(s: &str) -> (r: Vec<char>)
    ensures
        r@ == s@,
{
    let mut out: Vec<char> = Vec::new();
    for c in it: s.chars()
        invariant
            it.seq() == s@,
            out@ == s@.take(it.index()),
    {
        out.push(c);
        assert(s@.take(it.index() + 1) =~= s@.take(it.index()).push(c));
    }
    assert(s@.take(s@.len() as int) =~= s@);
    out
}

/// The string made of `v[from..to]`.
pub fn string_of_range(v: &Vec<char>, from: usize, to: usize) -> (r: String)
    requires
        from <= to <= v.len(),
    ensures
        r@ == v@.subrange(from as int, to as int),
{
    let mut out = String::new();
    let mut i: usize = from;
    while i < to
        invariant
            from <= i <= to <= v.len(),
            out@ == v@.subrange(from as int, i as int),
        decreases to - i,
    {
        out.push(v[i]);
        assert(v@.subrange(from as int, i + 1) =~= v@.subrange(from as int, i as int).push(
            v@[i as int],
        ));
        i += 1;
    }
    out
}

/// The bytes of a text.
pub fn bytes_of(s: &str) -> (r: Vec<u8>)
    ensures
        r@ == vstd::utf8::encode_utf8(s@),
{
    let bytes = s.as_bytes();
    let mut out: Vec<u8> = Vec::new();
    let mut i: usize = 0;
    while i < bytes.len()
        invariant
            i <= bytes.len(),
            out@ =~= bytes@.take(i as int),
        decreases bytes.len() - i,
    {
        out.push(bytes[i]);
        i += 1;
    }
    assert(bytes@.take(bytes@.len() as int) =~= bytes@);
    out
}

/// Whether two byte strings are the same.
pub fn same_bytes(a: &Vec<u8>, b: &Vec<u8>) -> (r: bool)
    ensures
        r == (a@ == b@),
{
    if a.len() != b.len() {
        return false;
    }
    let mut i: usize = 0;
    while i < a.len()
        invariant
            i <= a.len(),
            a.len() == b.len(),
            forall|j: int| 0 <= j < i ==> a@[j] == b@[j],
        decreases a.len() - i,
    {
        if a[i] != b[i] {
            return false;
        }
        i += 1;
    }
    assert(a@ =~= b@);
    true
}

/// Whether two texts are the same.
pub fn same(a: &str, b: &str) -> (r: bool)
    ensures
        r == (a@ == b@),
{
    let x = chars_of(a);
    let y = chars_of(b);
    if x.len() != y.len() {
        return false;
    }
    let mut i: usize = 0;
    while i < x.len()
        invariant
            i <= x.len(),
            x.len() == y.len(),
            x@ == a@,
            y@ == b@,
            forall|j: int| 0 <= j < i ==> x@[j] == y@[j],
        decreases x.len() - i,
    {
        if x[i] != y[i] {
            return false;
        }
        i += 1;
    }
    assert(a@ =~= b@);
    true
}

/// A copy of a text.
pub fn copy(s: &str) -> (r: String)
    ensures
        r@ == s@,
{
    s.to_owned()
}

/// A copy of a list of strings.
pub fn copy_all(v: &Vec<String>) -> (r: Vec<String>)
    ensures
        texts(r@) == texts(v@),
        r@ == v@,
{
    let mut out: Vec<String> = Vec::new();
    let mut i: usize = 0;
    while i < v.len()
        invariant
            i <= v.len(),
            out@ =~= v@.take(i as int),
        decreases v.len() - i,
    {
        out.push(v[i].clone());
        i += 1;
    }
    assert(v@.take(v@.len() as int) =~= v@);
    out
}

/// Whether `key` is one of the texts of `v`.
pub fn contains_text(v: &Vec<String>, key: &str) -> (r: bool)
    ensures
        r == texts(v@).contains(key@),
{
    let mut i: usize = 0;
    while i < v.len()
        invariant
            i <= v.len(),
            forall|j: int| 0 <= j < i ==> v@[j]@ != key@,
        decreases v.len() - i,
    {
        if same(v[i].as_str(), key) {
            assert(texts(v@)[i as int] == key@);
            return true;
        }
        i += 1;
    }
    assert forall|j: int| 0 <= j < texts(v@).len() implies texts(v@)[j] != key@ by {}
    false
}

// ---------------------------------------------------------------------------
// Searching
// ---------------------------------------------------------------------------

/// The position of the first `c`, or the length where there is none.
pub open spec fn index_of(s: Seq<char>, c: char) -> int
    decreases s.len(),
{
    if s.len() == 0 || s[0] == c {
        0
    } else {
        1 + index_of(s.drop_first(), c)
    }
}

/// `index_of` is the first position that holds `c`.
pub proof fn lemma_index_of(s: Seq<char>, c: char)
    ensures
        0 <= index_of(s, c) <= s.len(),
        forall|j: int| 0 <= j < index_of(s, c) ==> s[j] != c,
        index_of(s, c) < s.len() ==> s[index_of(s, c)] == c,
        index_of(s, c) < s.len() <==> s.contains(c),
    decreases s.len(),
{
    if s.len() == 0 {
    } else if s[0] == c {
    } else {
        let t = s.drop_first();
        lemma_index_of(t, c);
        assert forall|j: int| 0 <= j < index_of(s, c) implies s[j] != c by {
            if j > 0 {
                assert(s[j] == t[j - 1]);
            }
        }
        if s.contains(c) {
            let j = choose|j: int| 0 <= j < s.len() && s[j] == c;
            assert(t[j - 1] == c);
        }
    }
}

/// A position that holds `c`, with no `c` before it, is `index_of`.
pub proof fn lemma_index_of_unique(s: Seq<char>, c: char, k: int)
    requires
        0 <= k <= s.len(),
        forall|j: int| 0 <= j < k ==> s[j] != c,
        k < s.len() ==> s[k] == c,
    ensures
        index_of(s, c) == k,
{
    lemma_index_of(s, c);
    let m = index_of(s, c);
    if m < k {
        assert(s[m] != c);
    } else if m > k {
        assert(s[k] != c);
    }
}

/// The position of the first `c` at or after `from`, or the length.
pub fn find_from(v: &Vec<char>, from: usize, c: char) -> (r: usize)
    requires
        from <= v.len(),
    ensures
        from <= r <= v.len(),
        r - from == index_of(v@.skip(from as int), c),
        forall|j: int| from <= j < r ==> v@[j] != c,
        r < v.len() ==> v@[r as int] == c,
{
    let mut i: usize = from;
    while i < v.len() && v[i] != c
        invariant
            from <= i <= v.len(),
            forall|j: int| from <= j < i ==> v@[j] != c,
        decreases v.len() - i,
    {
        i += 1;
    }
    proof {
        lemma_index_of_unique(v@.skip(from as int), c, i - from);
    }
    i
}

/// Whether the text holds `c`.
pub fn contains_char(s: &str, c: char) -> (r: bool)
    ensures
        r == s@.contains(c),
{
    let v = chars_of(s);
    let k = find_from(&v, 0, c);
    proof {
        assert(v@.skip(0) =~= v@);
        lemma_index_of(v@, c);
    }
    k < v.len()
}

/// Whether `p` stands in `s` at position `i`.
pub open spec fn occurs_at(s: Seq<char>, p: Seq<char>, i: int) -> bool {
    0 <= i && i + p.len() <= s.len() && s.subrange(i, i + p.len()) == p
}

/// Whether `p` stands somewhere in `s`.
pub open spec fn occurs(s: Seq<char>, p: Seq<char>) -> bool {
    exists|i: int| occurs_at(s, p, i)
}

/// Whether `s` begins with `p`.
pub open spec fn begins(s: Seq<char>, p: Seq<char>) -> bool {
    occurs_at(s, p, 0)
}

/// Whether `s` ends with `p`.
pub open spec fn ends(s: Seq<char>, p: Seq<char>) -> bool {
    occurs_at(s, p, s.len() - p.len())
}

/// Whether `p` stands in `s` at `i`, on character lists.
pub fn matches_at(s: &Vec<char>, p: &Vec<char>, i: usize) -> (r: bool)
    ensures
        r == occurs_at(s@, p@, i as int),
{
    if i > s.len() || p.len() > s.len() - i {
        return false;
    }
    let mut j: usize = 0;
    while j < p.len()
        invariant
            j <= p.len(),
            i + p.len() <= s.len(),
            forall|k: int| 0 <= k < j ==> s@[i + k] == p@[k],
        decreases p.len() - j,
    {
        if s[i + j] != p[j] {
            assert(s@.subrange(i as int, i + p@.len())[j as int] != p@[j as int]);
            return false;
        }
        j += 1;
    }
    assert(s@.subrange(i as int, i + p@.len()) =~= p@);
    true
}

pub fn starts_with(s: &str, p: &str) -> (r: bool)
    ensures
        r == begins(s@, p@),
{
    matches_at(&chars_of(s), &chars_of(p), 0)
}

pub fn ends_with(s: &str, p: &str) -> (r: bool)
    ensures
        r == ends(s@, p@),
{
    let v = chars_of(s);
    let q = chars_of(p);
    if q.len() > v.len() {
        return false;
    }
    matches_at(&v, &q, v.len() - q.len())
}

pub fn contains(s: &str, p: &str) -> (r: bool)
    ensures
        r == occurs(s@, p@),
{
    let v = chars_of(s);
    let q = chars_of(p);
    let mut i: usize = 0;
    while i < v.len()
        invariant
            i <= v.len(),
            v@ == s@,
            q@ == p@,
            forall|k: int| 0 <= k < i ==> !occurs_at(s@, p@, k),
        decreases v.len() - i,
    {
        if matches_at(&v, &q, i) {
            return true;
        }
        i += 1;
    }
    matches_at(&v, &q, i)
}

// ---------------------------------------------------------------------------
// Trimming
// ---------------------------------------------------------------------------

/// The text without the white space at its start.
pub open spec fn trim_start_of(s: Seq<char>) -> Seq<char>
    decreases s.len(),
{
    if s.len() > 0 && whitespace(s[0]) {
        trim_start_of(s.drop_first())
    } else {
        s
    }
}

/// The text without the white space at its end.
pub open spec fn trim_end_of(s: Seq<char>) -> Seq<char>
    decreases s.len(),
{
    if s.len() > 0 && whitespace(s.last()) {
        trim_end_of(s.drop_last())
    } else {
        s
    }
}

/// The text without the white space at either end.
pub open spec fn trim_of(s: Seq<char>) -> Seq<char> {
    trim_end_of(trim_start_of(s))
}

/// Whether the text is empty or all white space.
pub open spec fn blank(s: Seq<char>) -> bool {
    trim_of(s).len() == 0
}

proof fn lemma_trim_start(s: Seq<char>, k: int)
    requires
        0 <= k <= s.len(),
        forall|j: int| 0 <= j < k ==> whitespace(s[j]),
        k < s.len() ==> !whitespace(s[k]),
    ensures
        trim_start_of(s) == s.skip(k),
    decreases k,
{
    if k == 0 {
        assert(s.skip(0) =~= s);
    } else {
        lemma_trim_start(s.drop_first(), k - 1);
        assert(s.drop_first().skip(k - 1) =~= s.skip(k));
    }
}

proof fn lemma_trim_end(s: Seq<char>, k: int)
    requires
        0 <= k <= s.len(),
        forall|j: int| k <= j < s.len() ==> whitespace(s[j]),
        k > 0 ==> !whitespace(s[k - 1]),
    ensures
        trim_end_of(s) == s.take(k),
    decreases s.len() - k,
{
    if k == s.len() {
        assert(s.take(k) =~= s);
    } else {
        lemma_trim_end(s.drop_last(), k);
        assert(s.drop_last().take(k) =~= s.take(k));
    }
}

/// A text is blank exactly when all its characters are white space.
pub proof fn lemma_blank(s: Seq<char>)
    ensures
        blank(s) <==> forall|i: int| 0 <= i < s.len() ==> whitespace(#[trigger] s[i]),
    decreases s.len(),
{
    if s.len() == 0 {
        assert(trim_start_of(s) =~= s);
    } else if whitespace(s[0]) {
        let t = s.drop_first();
        lemma_blank(t);
        if forall|i: int| 0 <= i < t.len() ==> whitespace(#[trigger] t[i]) {
            assert forall|i: int| 0 <= i < s.len() implies whitespace(#[trigger] s[i]) by {
                if i > 0 {
                    assert(s[i] == t[i - 1]);
                }
            }
        } else {
            let i = choose|i: int| 0 <= i < t.len() && !whitespace(#[trigger] t[i]);
            assert(s[i + 1] == t[i]);
        }
    } else {
        lemma_trim_end_keeps_first(s);
    }
}

proof fn lemma_trim_end_keeps_first(s: Seq<char>)
    requires
        s.len() > 0,
        !whitespace(s[0]),
    ensures
        trim_end_of(s).len() > 0,
    decreases s.len(),
{
    if whitespace(s.last()) {
        lemma_trim_end_keeps_first(s.drop_last());
    }
}

/// `str::trim`, as a new string.
pub fn trim(s: &str) -> (r: String)
    ensures
        r@ == trim_of(s@),
{
    let v = chars_of(s);
    let mut a: usize = 0;
    while a < v.len() && is_whitespace(v[a])
        invariant
            a <= v.len(),
            forall|j: int| 0 <= j < a ==> whitespace(v@[j]),
        decreases v.len() - a,
    {
        a += 1;
    }
    let mut b: usize = v.len();
    while b > a && is_whitespace(v[b - 1])
        invariant
            a <= b <= v.len(),
            forall|j: int| b <= j < v.len() ==> whitespace(v@[j]),
        decreases b,
    {
        b -= 1;
    }
    proof {
        lemma_trim_start(v@, a as int);
        lemma_trim_end(v@.skip(a as int), b - a);
        assert(v@.skip(a as int).take(b - a) =~= v@.subrange(a as int, b as int));
    }
    string_of_range(&v, a, b)
}

/// `s.trim().is_empty()`.
pub fn is_blank(s: &str) -> (r: bool)
    ensures
        r == blank(s@),
{
    trim(s).as_str().is_empty()
}

// ---------------------------------------------------------------------------
// Splitting and joining
// ---------------------------------------------------------------------------

/// The pieces between the separators; there is always at least one.
pub open spec fn split_on(s: Seq<char>, c: char) -> Seq<Seq<char>>
    decreases s.len(),
{
    let k = index_of(s, c);
    if 0 <= k < s.len() {
        seq![s.take(k)] + split_on(s.skip(k + 1), c)
    } else {
        seq![s]
    }
}

/// `str::split` on one character.
pub fn split(s: &str, c: char) -> (r: Vec<String>)
    ensures
        texts(r@) == split_on(s@, c),
{
    let v = chars_of(s);
    let mut out: Vec<String> = Vec::new();
    let mut start: usize = 0;
    assert(s@.skip(0) =~= s@);
    loop
        invariant
            start <= v.len(),
            v@ == s@,
            split_on(s@, c) =~= texts(out@) + split_on(s@.skip(start as int), c),
        decreases v.len() - start,
    {
        let k = find_from(&v, start, c);
        let piece = string_of_range(&v, start, k);
        let ghost rest = s@.skip(start as int);
        let ghost before = texts(out@);
        assert(rest.take(k - start) =~= piece@);
        out.push(piece);
        assert(texts(out@) =~= before.push(piece@));
        if k < v.len() {
            assert(rest.skip(k - start + 1) =~= s@.skip(k + 1));
            start = k + 1;
        } else {
            assert(rest =~= piece@);
            return out;
        }
    }
}

/// A line without the carriage return that ended it.
pub open spec fn without_cr(s: Seq<char>) -> Seq<char> {
    if s.len() > 0 && s.last() == '\r' {
        s.drop_last()
    } else {
        s
    }
}

/// The lines of a text: each ends at a newline or at the end of the text, and
/// a final newline opens no further line.
pub open spec fn lines_of(s: Seq<char>) -> Seq<Seq<char>>
    decreases s.len(),
{
    if s.len() == 0 {
        Seq::empty()
    } else {
        let k = index_of(s, '\n');
        if 0 <= k < s.len() {
            seq![without_cr(s.take(k))] + lines_of(s.skip(k + 1))
        } else {
            seq![s]
        }
    }
}

/// `str::lines`.
pub fn lines(s: &str) -> (r: Vec<String>)
    ensures
        texts(r@) == lines_of(s@),
{
    let v = chars_of(s);
    let mut out: Vec<String> = Vec::new();
    let mut start: usize = 0;
    assert(s@.skip(0) =~= s@);
    while start < v.len()
        invariant
            start <= v.len(),
            v@ == s@,
            lines_of(s@) =~= texts(out@) + lines_of(s@.skip(start as int)),
        decreases v.len() - start,
    {
        let k = find_from(&v, start, '\n');
        let ghost rest = s@.skip(start as int);
        let ghost before = texts(out@);
        if k < v.len() {
            let end: usize = if k > start && v[k - 1] == '\r' {
                k - 1
            } else {
                k
            };
            let piece = string_of_range(&v, start, end);
            assert(without_cr(rest.take(k - start)) =~= piece@);
            out.push(piece);
            assert(texts(out@) =~= before.push(piece@));
            assert(rest.skip(k - start + 1) =~= s@.skip(k + 1));
            start = k + 1;
        } else {
            let piece = string_of_range(&v, start, k);
            assert(rest =~= piece@);
            out.push(piece);
            assert(texts(out@) =~= before.push(piece@));
            start = k;
            assert(s@.skip(start as int).len() == 0);
        }
    }
    assert(lines_of(s@.skip(start as int)) =~= Seq::<Seq<char>>::empty());
    out
}

/// The words of a text: its longest parts without white space.
pub open spec fn words_of(s: Seq<char>) -> Seq<Seq<char>>
    decreases s.len(),
{
    if s.len() == 0 {
        Seq::empty()
    } else if whitespace(s[0]) {
        words_of(s.drop_first())
    } else {
        proof {
            lemma_word_end_range(s);
        }
        let k = word_end(s);
        seq![s.take(k)] + words_of(s.skip(k))
    }
}

/// Where the word that a text begins with ends.
pub open spec fn word_end(s: Seq<char>) -> int
    decreases s.len(),
{
    if s.len() <= 1 {
        s.len() as int
    } else if whitespace(s[1]) {
        1
    } else {
        1 + word_end(s.drop_first())
    }
}

/// The first word of a text that has one is not empty.
pub proof fn lemma_word_end_range(s: Seq<char>)
    ensures
        0 <= word_end(s) <= s.len(),
        s.len() > 0 ==> word_end(s) > 0,
    decreases s.len(),
{
    if s.len() > 1 {
        lemma_word_end_range(s.drop_first());
    }
}

proof fn lemma_word_end(s: Seq<char>, k: int)
    requires
        1 <= k <= s.len(),
        forall|j: int| 1 <= j < k ==> !whitespace(s[j]),
        k < s.len() ==> whitespace(s[k]),
    ensures
        word_end(s) == k,
    decreases s.len(),
{
    if s.len() > 1 && k > 1 {
        let t = s.drop_first();
        assert forall|j: int| 1 <= j < k - 1 implies !whitespace(t[j]) by {
            assert(t[j] == s[j + 1]);
        }
        lemma_word_end(t, k - 1);
    }
}

/// `str::split_whitespace`.
pub fn words(s: &str) -> (r: Vec<String>)
    ensures
        texts(r@) == words_of(s@),
{
    let v = chars_of(s);
    let mut out: Vec<String> = Vec::new();
    let mut i: usize = 0;
    assert(s@.skip(0) =~= s@);
    assert(texts(out@) =~= Seq::<Seq<char>>::empty());
    while i < v.len()
        invariant
            i <= v.len(),
            v@ == s@,
            words_of(s@) == texts(out@) + words_of(s@.skip(i as int)),
        decreases v.len() - i,
    {
        let ghost rest = s@.skip(i as int);
        if is_whitespace(v[i]) {
            assert(rest.drop_first() =~= s@.skip(i + 1));
            i += 1;
        } else {
            let mut j: usize = i + 1;
            while j < v.len() && !is_whitespace(v[j])
                invariant
                    i < j <= v.len(),
                    v@ == s@,
                    forall|q: int| i < q < j ==> !whitespace(v@[q]),
                decreases v.len() - j,
            {
                j += 1;
            }
            let word = string_of_range(&v, i, j);
            let ghost before = texts(out@);
            out.push(word);
            proof {
                let k = j - i;
                assert forall|q: int| 1 <= q < k implies !whitespace(rest[q]) by {
                    assert(rest[q] == v@[i + q]);
                }
                lemma_word_end(rest, k);
                assert(rest.take(k) =~= word@);
                assert(rest.skip(k) =~= s@.skip(j as int));
                assert(texts(out@) =~= before.push(word@));
                assert(before + (seq![word@] + words_of(s@.skip(j as int))) =~= before.push(word@)
                    + words_of(s@.skip(j as int)));
            }
            i = j;
        }
    }
    assert(s@.skip(i as int) =~= Seq::<char>::empty());
    assert(texts(out@) + Seq::<Seq<char>>::empty() =~= texts(out@));
    out
}

/// The pieces one after another, with `sep` between each two.
pub open spec fn join_with(v: Seq<Seq<char>>, sep: Seq<char>) -> Seq<char>
    decreases v.len(),
{
    if v.len() == 0 {
        Seq::empty()
    } else if v.len() == 1 {
        v[0]
    } else {
        join_with(v.drop_last(), sep) + sep + v.last()
    }
}

/// `[String]::join`.
pub fn join(v: &Vec<String>, sep: &str) -> (r: String)
    ensures
        r@ == join_with(texts(v@), sep@),
{
    let mut out = String::new();
    let mut i: usize = 0;
    let ghost all = texts(v@);
    while i < v.len()
        invariant
            i <= v.len(),
            all == texts(v@),
            out@ == join_with(all.take(i as int), sep@),
        decreases v.len() - i,
    {
        if i > 0 {
            out.append(sep);
        }
        out.append(v[i].as_str());
        proof {
            let t = all.take(i + 1);
            assert(t.drop_last() =~= all.take(i as int));
            assert(t.last() == v@[i as int]@);
            if i == 0 {
                assert(out@ =~= t[0]);
            }
        }
        i += 1;
    }
    assert(all.take(v@.len() as int) =~= all);
    out
}

/// Whether a text holds no line break.
pub open spec fn one_line(s: Seq<char>) -> bool {
    forall|i: int| 0 <= i < s.len() ==> #[trigger] s[i] != '\n' && s[i] != '\r'
}

proof fn lemma_join_front(v: Seq<Seq<char>>, sep: Seq<char>)
    requires
        v.len() > 1,
    ensures
        join_with(v, sep) == v[0] + sep + join_with(v.drop_first(), sep),
    decreases v.len(),
{
    let t = v.drop_first();
    if v.len() == 2 {
        assert(v.drop_last() =~= seq![v[0]]);
        assert(join_with(v.drop_last(), sep) == v[0]);
        assert(join_with(t, sep) == v[1]);
    } else {
        let d = v.drop_last();
        lemma_join_front(d, sep);
        assert(d.drop_first() =~= t.drop_last());
        assert(d[0] == v[0]);
        assert(t.last() == v.last());
        assert(v[0] + sep + join_with(t.drop_last(), sep) + sep + v.last() =~= v[0] + sep + (
        join_with(t.drop_last(), sep) + sep + v.last()));
    }
}

/// The lines of joined lines are those lines, where none holds a line break.
pub proof fn lemma_lines_of_joined(v: Seq<Seq<char>>)
    requires
        v.len() > 0,
        forall|i: int| 0 <= i < v.len() ==> one_line(#[trigger] v[i]),
    ensures
        lines_of(join_with(v, "\n"@) + "\n"@) == v,
    decreases v.len(),
{
    reveal_strlit("\n");
    let sep = "\n"@;
    let s = join_with(v, sep) + sep;
    let k = v[0].len() as int;
    assert(one_line(v[0]));
    if v.len() == 1 {
        assert(s =~= v[0] + sep);
    } else {
        lemma_join_front(v, sep);
    }
    assert forall|j: int| 0 <= j < k implies s[j] != '\n' by {
        assert(s[j] == v[0][j]);
    }
    assert(s[k] == '\n');
    lemma_index_of_unique(s, '\n', k);
    assert(s.take(k) =~= v[0]);
    assert(without_cr(v[0]) == v[0]);
    if v.len() == 1 {
        assert(s.skip(k + 1) =~= Seq::<char>::empty());
        assert(lines_of(s.skip(k + 1)) =~= Seq::<Seq<char>>::empty());
        assert(lines_of(s) =~= v);
    } else {
        let t = v.drop_first();
        assert forall|i: int| 0 <= i < t.len() implies one_line(#[trigger] t[i]) by {
            assert(one_line(v[i + 1]));
        }
        lemma_lines_of_joined(t);
        assert(s.skip(k + 1) =~= join_with(t, sep) + sep);
        assert(lines_of(s) =~= seq![v[0]] + t);
        assert(seq![v[0]] + t =~= v);
    }
}

/// Joining with a separator that holds no line break adds none.
pub proof fn lemma_join_one_line(v: Seq<Seq<char>>, sep: Seq<char>)
    requires
        one_line(sep),
        forall|i: int| 0 <= i < v.len() ==> one_line(#[trigger] v[i]),
    ensures
        one_line(join_with(v, sep)),
    decreases v.len(),
{
    if v.len() > 1 {
        let d = v.drop_last();
        assert forall|i: int| 0 <= i < d.len() implies one_line(#[trigger] d[i]) by {
            assert(one_line(v[i]));
        }
        lemma_join_one_line(d, sep);
        assert(one_line(v[v.len() - 1]));
    } else if v.len() == 1 {
        assert(one_line(v[0]));
    }
}

/// A decimal number holds no line break.
pub proof fn lemma_decimal_one_line(n: nat)
    ensures
        one_line(decimal(n)),
    decreases n,
{
    if n >= 10 {
        lemma_decimal_one_line(n / 10);
    }
}

/// Every `from` replaced by `to`.
pub open spec fn replaced(s: Seq<char>, from: char, to: char) -> Seq<char> {
    s.map_values(|c: char| if c == from { to } else { c })
}

pub fn replace_char(s: &str, from: char, to: char) -> (r: String)
    ensures
        r@ == replaced(s@, from, to),
{
    let v = chars_of(s);
    let mut out = String::new();
    let mut i: usize = 0;
    while i < v.len()
        invariant
            i <= v.len(),
            v@ == s@,
            out@ =~= replaced(s@, from, to).take(i as int),
        decreases v.len() - i,
    {
        out.push(if v[i] == from { to } else { v[i] });
        i += 1;
    }
    assert(replaced(s@, from, to).take(s@.len() as int) =~= replaced(s@, from, to));
    out
}

/// The text in ASCII lower case.
pub open spec fn ascii_lowercase(s: Seq<char>) -> Seq<char> {
    s.map_values(|c: char| ascii_lower(c))
}

/// `str::to_ascii_lowercase`.
pub fn to_ascii_lowercase(s: &str) -> (r: String)
    ensures
        r@ == ascii_lowercase(s@),
{
    let v = chars_of(s);
    let mut out = String::new();
    let mut i: usize = 0;
    while i < v.len()
        invariant
            i <= v.len(),
            v@ == s@,
            out@ =~= ascii_lowercase(s@).take(i as int),
        decreases v.len() - i,
    {
        out.push(to_ascii_lower(v[i]));
        i += 1;
    }
    assert(ascii_lowercase(s@).take(s@.len() as int) =~= ascii_lowercase(s@));
    out
}

/// `str::eq_ignore_ascii_case`.
pub fn eq_ignore_ascii_case(a: &str, b: &str) -> (r: bool)
    ensures
        r == (ascii_lowercase(a@) == ascii_lowercase(b@)),
{
    let x = to_ascii_lowercase(a);
    let y = to_ascii_lowercase(b);
    same(x.as_str(), y.as_str())
}

/// The first `n` characters, or all of them where there are fewer.
pub open spec fn first_chars(s: Seq<char>, n: int) -> Seq<char> {
    if s.len() <= n {
        s
    } else {
        s.take(n)
    }
}

pub fn take_chars(s: &str, n: usize) -> (r: String)
    ensures
        r@ == first_chars(s@, n as int),
{
    let v = chars_of(s);
    if v.len() <= n {
        copy(s)
    } else {
        string_of_range(&v, 0, n)
    }
}

// ---------------------------------------------------------------------------
// Numbers
// ---------------------------------------------------------------------------

/// The character of a digit below sixteen.
pub open spec fn digit(n: int) -> char {
    if n < 10 {
        (48 + n) as char
    } else {
        (87 + n) as char
    }
}

/// The number that digits stand for.
pub open spec fn number_of(s: Seq<char>) -> nat
    decreases s.len(),
{
    if s.len() == 0 {
        0
    } else {
        number_of(s.drop_last()) * 10 + (s.last() as int - '0' as int) as nat
    }
}

/// A number can be read back from its digits, so that different numbers have
/// different digits.
pub proof fn decimals_can_be_read(n: nat)
    ensures
        number_of(decimal(n)) == n,
    decreases n,
{
    let d = digit((n % 10) as int);
    assert(d as int - '0' as int == n % 10);
    if n >= 10 {
        decimals_can_be_read(n / 10);
        assert(decimal(n).drop_last() =~= decimal(n / 10));
    } else {
        assert(decimal(n).drop_last() =~= Seq::<char>::empty());
        assert(number_of(decimal(n).drop_last()) == 0);
    }
}

/// Whether a text is a decimal number: digits, at least one of them.
pub open spec fn numeral(s: Seq<char>) -> bool {
    s.len() > 0 && forall|i: int| 0 <= i < s.len() ==> '0' <= #[trigger] s[i] && s[i] <= '9'
}

pub fn is_numeral(s: &str) -> (r: bool)
    ensures
        r == numeral(s@),
{
    let v = chars_of(s);
    let mut i: usize = 0;
    while i < v.len()
        invariant
            i <= v.len(),
            v@ == s@,
            forall|j: int| 0 <= j < i ==> '0' <= #[trigger] s@[j] && s@[j] <= '9',
        decreases v.len() - i,
    {
        if v[i] < '0' || v[i] > '9' {
            assert(!('0' <= s@[i as int] && s@[i as int] <= '9'));
            return false;
        }
        i += 1;
    }
    v.len() > 0
}

proof fn lemma_number_step(s: Seq<char>, k: int)
    requires
        0 <= k < s.len(),
    ensures
        number_of(s.take(k + 1)) == number_of(s.take(k)) * 10 + (s[k] as int - '0' as int) as nat,
{
    assert(s.take(k + 1).drop_last() =~= s.take(k));
}

/// Whether a decimal number is smaller than another, however long they are.
pub fn is_smaller_number(a: &str, b: &str) -> (r: bool)
    requires
        numeral(a@),
        numeral(b@),
    ensures
        r == (number_of(a@) < number_of(b@)),
{
    let x = chars_of(a);
    let y = chars_of(b);
    let n = if x.len() > y.len() {
        x.len()
    } else {
        y.len()
    };
    let mut i: usize = 0;
    let mut less = false;
    let mut more = false;
    let ghost mut p: int = 0;
    let ghost mut q: int = 0;
    assert(a@.take(0) =~= Seq::<char>::empty());
    assert(b@.take(0) =~= Seq::<char>::empty());
    while i < n
        invariant
            i <= n,
            x@ == a@,
            y@ == b@,
            numeral(a@),
            numeral(b@),
            x@.len() <= n,
            y@.len() <= n,
            p == (if i + x@.len() >= n {
                i + x@.len() - n
            } else {
                0
            }),
            q == (if i + y@.len() >= n {
                i + y@.len() - n
            } else {
                0
            }),
            p == 0 ==> number_of(a@.take(p)) == 0,
            q == 0 ==> number_of(b@.take(q)) == 0,
            less == (number_of(a@.take(p)) < number_of(b@.take(q))),
            more == (number_of(a@.take(p)) > number_of(b@.take(q))),
        decreases n - i,
    {
        let c = if i >= n - x.len() {
            x[i - (n - x.len())]
        } else {
            '0'
        };
        let d = if i >= n - y.len() {
            y[i - (n - y.len())]
        } else {
            '0'
        };
        proof {
            if i >= n - x@.len() {
                lemma_number_step(a@, p);
                p = p + 1;
            }
            if i >= n - y@.len() {
                lemma_number_step(b@, q);
                q = q + 1;
            }
        }
        if !less && !more {
            less = c < d;
            more = c > d;
        }
        i += 1;
    }
    assert(a@.take(a@.len() as int) =~= a@);
    assert(b@.take(b@.len() as int) =~= b@);
    less
}

/// The decimal form of a number.
pub open spec fn decimal(n: nat) -> Seq<char>
    decreases n,
{
    if n < 10 {
        seq![digit(n as int)]
    } else {
        decimal(n / 10).push(digit((n % 10) as int))
    }
}

fn digit_char(n: u8) -> (r: char)
    requires
        n < 16,
    ensures
        r == digit(n as int),
{
    if n < 10 {
        (48 + n) as char
    } else {
        (87 + n) as char
    }
}

pub fn decimal_of(n: u128) -> (r: String)
    ensures
        r@ == decimal(n as nat),
    decreases n,
{
    if n < 10 {
        let mut s = String::new();
        s.push(digit_char(n as u8));
        assert(s@ =~= seq![digit(n as int)]);
        s
    } else {
        let mut s = decimal_of(n / 10);
        s.push(digit_char((n % 10) as u8));
        s
    }
}

/// The text moved to the right end of a field of `width` characters.
pub open spec fn padded(s: Seq<char>, width: nat) -> Seq<char>
    decreases width - s.len(),
{
    if s.len() >= width {
        s
    } else {
        padded(seq![' '] + s, width)
    }
}

pub fn pad_left(s: String, width: usize) -> (r: String)
    ensures
        r@ == padded(s@, width as nat),
    decreases width - s@.len(),
{
    let v = chars_of(s.as_str());
    if v.len() >= width {
        s
    } else {
        let mut t = String::new();
        t.push(' ');
        t.append(s.as_str());
        assert(t@ =~= seq![' '] + s@);
        pad_left(t, width)
    }
}

/// The text at the left end of a field of `width` characters.
pub open spec fn filled(s: Seq<char>, width: nat) -> Seq<char>
    decreases width - s.len(),
{
    if s.len() >= width {
        s
    } else {
        filled(s.push(' '), width)
    }
}

pub fn pad_right(s: &str, width: usize) -> (r: String)
    ensures
        r@ == filled(s@, width as nat),
{
    let mut out = copy(s);
    let v = chars_of(s);
    let mut n: usize = v.len();
    while n < width
        invariant
            n == out@.len(),
            filled(s@, width as nat) == filled(out@, width as nat),
        decreases width - n,
    {
        out.push(' ');
        n += 1;
    }
    out
}

/// The lower-case hexadecimal form of a byte string.
pub open spec fn hex(b: Seq<u8>) -> Seq<char>
    decreases b.len(),
{
    if b.len() == 0 {
        Seq::empty()
    } else {
        hex(b.drop_last()).push(digit(b.last() as int / 16)).push(digit(b.last() as int % 16))
    }
}

pub fn hex_of(b: &Vec<u8>) -> (r: String)
    ensures
        r@ == hex(b@),
{
    let mut out = String::new();
    let mut i: usize = 0;
    while i < b.len()
        invariant
            i <= b.len(),
            out@ == hex(b@.take(i as int)),
        decreases b.len() - i,
    {
        out.push(digit_char(b[i] / 16));
        out.push(digit_char(b[i] % 16));
        assert(b@.take(i + 1).drop_last() =~= b@.take(i as int));
        i += 1;
    }
    assert(b@.take(b@.len() as int) =~= b@);
    out
}

// ---------------------------------------------------------------------------
// Laws
// ---------------------------------------------------------------------------

/// Trimming takes the white space off both ends of a text, and nothing else: what is
/// left is the part from the first to the last character that is none.
pub proof fn trimming_takes_white_space_only(s: Seq<char>, a: int, b: int)
    requires
        0 <= a <= b <= s.len(),
        forall|i: int| 0 <= i < a || b <= i < s.len() ==> whitespace(#[trigger] s[i]),
        a < b ==> !whitespace(s[a]) && !whitespace(s[b - 1]),
    ensures
        trim_of(s) == s.subrange(a, b),
        blank(s) <==> a == b,
{
    if a < b {
        lemma_trim_start(s, a);
        lemma_trim_end(s.skip(a), b - a);
        assert(s.skip(a).take(b - a) =~= s.subrange(a, b));
    } else {
        lemma_trim_start(s, s.len() as int);
        lemma_trim_end(s.skip(s.len() as int), 0);
        assert(s.skip(s.len() as int).take(0) =~= s.subrange(a, b));
    }
}

/// White space is what separates words on a page, and no letter, digit or sign of ASCII.
pub proof fn printed_characters_are_no_white_space(c: char)
    ensures
        whitespace(' ') && whitespace('\t') && whitespace('\n') && whitespace('\r'),
        '!' <= c && c <= '~' ==> !whitespace(c),
{
}

/// Texts that are joined stand one after another, with the separator between any two:
/// joining two lists is joining each and putting the separator between.
pub proof fn joining_puts_one_separator_between(
    a: Seq<Seq<char>>,
    b: Seq<Seq<char>>,
    sep: Seq<char>,
    s: Seq<char>,
)
    ensures
        join_with(Seq::empty(), sep) == Seq::<char>::empty(),
        join_with(seq![s], sep) == s,
        a.len() > 0 && b.len() > 0 ==> join_with(a + b, sep) == join_with(a, sep) + sep + join_with(
            b,
            sep,
        ),
    decreases b.len(),
{
    if a.len() > 0 && b.len() > 0 {
        assert((a + b).drop_last() =~= a + b.drop_last());
        assert((a + b).last() == b.last());
        if b.len() == 1 {
            assert(a + b.drop_last() =~= a);
        } else {
            joining_puts_one_separator_between(a, b.drop_last(), sep, s);
            assert(join_with(a, sep) + sep + join_with(b.drop_last(), sep) + sep + b.last()
                =~= join_with(a, sep) + sep + (join_with(b.drop_last(), sep) + sep + b.last()));
        }
    }
}

/// The pieces of a split text hold no separator, and joined with it they are the text.
pub proof fn splitting_is_undone_by_joining(s: Seq<char>, c: char)
    ensures
        split_on(s, c).len() > 0,
        join_with(split_on(s, c), seq![c]) == s,
        forall|i: int| 0 <= i < split_on(s, c).len() ==> !(#[trigger] split_on(s, c)[i]).contains(c),
    decreases s.len(),
{
    lemma_index_of(s, c);
    let k = index_of(s, c);
    if k < s.len() {
        let rest = s.skip(k + 1);
        splitting_is_undone_by_joining(rest, c);
        let first = seq![s.take(k)];
        assert(!s.take(k).contains(c));
        joining_puts_one_separator_between(first, split_on(rest, c), seq![c], s.take(k));
        assert(s.take(k) + seq![c] + rest =~= s);
        assert forall|i: int| 0 <= i < split_on(s, c).len() implies !(#[trigger] split_on(
            s,
            c,
        )[i]).contains(c) by {
            if i > 0 {
                assert(split_on(s, c)[i] == split_on(rest, c)[i - 1]);
            }
        }
    }
}

/// The words of words that single spaces separate are those words.
pub proof fn words_are_what_spaces_separate(v: Seq<Seq<char>>)
    requires
        forall|i: int|
            0 <= i < v.len() ==> (#[trigger] v[i]).len() > 0 && forall|j: int|
                0 <= j < v[i].len() ==> !whitespace(#[trigger] v[i][j]),
    ensures
        words_of(join_with(v, seq![' '])) == v,
    decreases v.len(),
{
    let sep = seq![' '];
    let s = join_with(v, sep);
    if v.len() == 0 {
        assert(words_of(s) =~= v);
    } else {
        let k = v[0].len() as int;
        let t = v.drop_first();
        assert forall|i: int| 0 <= i < t.len() implies (#[trigger] t[i]).len() > 0 && forall|j: int|
            0 <= j < t[i].len() ==> !whitespace(#[trigger] t[i][j]) by {
            assert(v[i + 1].len() > 0);
        }
        words_are_what_spaces_separate(t);
        if v.len() == 1 {
            assert(s == v[0]);
            assert(s.skip(k) =~= Seq::<char>::empty());
            assert(words_of(s.skip(k)) =~= Seq::<Seq<char>>::empty());
        } else {
            lemma_join_front(v, sep);
            assert(s.skip(k)[0] == ' ');
            assert(s.skip(k).drop_first() =~= join_with(t, sep));
        }
        assert forall|j: int| 0 <= j < k implies !whitespace(s[j]) by {
            assert(s[j] == v[0][j]);
            assert(!whitespace(v[0][j]));
        }
        lemma_word_end(s, k);
        assert(s.take(k) =~= v[0]);
        assert(!whitespace(s[0]));
        assert(words_of(s) == seq![s.take(k)] + words_of(s.skip(k)));
        assert(words_of(s) =~= v);
    }
}

/// The lines of a text that does not end with a line break are the same as those of
/// the text with one.
pub proof fn a_final_break_opens_no_line(v: Seq<Seq<char>>)
    requires
        v.len() > 0,
        v.last().len() > 0,
        forall|i: int| 0 <= i < v.len() ==> one_line(#[trigger] v[i]),
    ensures
        lines_of(join_with(v, "\n"@)) == v,
    decreases v.len(),
{
    reveal_strlit("\n");
    let sep = "\n"@;
    let s = join_with(v, sep);
    let k = v[0].len() as int;
    assert(one_line(v[0]));
    if v.len() == 1 {
        lemma_index_of(s, '\n');
        assert(!s.contains('\n'));
        assert(lines_of(s) =~= v);
    } else {
        lemma_join_front(v, sep);
        let t = v.drop_first();
        assert forall|i: int| 0 <= i < t.len() implies one_line(#[trigger] t[i]) by {
            assert(one_line(v[i + 1]));
        }
        a_final_break_opens_no_line(t);
        assert forall|j: int| 0 <= j < k implies s[j] != '\n' by {
            assert(s[j] == v[0][j]);
        }
        assert(s[k] == '\n');
        lemma_index_of_unique(s, '\n', k);
        assert(s.take(k) =~= v[0]);
        assert(without_cr(v[0]) == v[0]);
        assert(s.skip(k + 1) =~= join_with(t, sep));
        assert(lines_of(s) =~= seq![v[0]] + t);
        assert(seq![v[0]] + t =~= v);
    }
}

/// A text begins, ends or goes on with another exactly where it is that one with
/// something behind it, before it, or on both sides.
pub proof fn parts_of_a_text_are_found(a: Seq<char>, p: Seq<char>, b: Seq<char>, s: Seq<char>)
    ensures
        begins(p + b, p),
        ends(a + p, p),
        occurs(a + p + b, p),
        begins(s, p) ==> s == p + s.skip(p.len() as int),
        ends(s, p) ==> s == s.take(s.len() - p.len()) + p,
        occurs(s, p) ==> exists|i: int|
            0 <= i <= s.len() - p.len() && s == #[trigger] s.take(i) + p + s.skip(i + p.len()),
{
    assert((p + b).subrange(0, p.len() as int) =~= p);
    assert((a + p).subrange(a.len() as int, (a + p).len() as int) =~= p);
    let whole = a + p + b;
    assert(whole.subrange(a.len() as int, (a.len() + p.len()) as int) =~= p);
    assert(occurs_at(whole, p, a.len() as int));
    if begins(s, p) {
        assert(s.subrange(0, p.len() as int) + s.skip(p.len() as int) =~= s);
    }
    if ends(s, p) {
        assert(s.take(s.len() - p.len()) + s.subrange(s.len() - p.len(), s.len() as int) =~= s);
    }
    if occurs(s, p) {
        let i = choose|i: int| occurs_at(s, p, i);
        assert(s.take(i) + s.subrange(i, i + p.len()) + s.skip(i + p.len()) =~= s);
    }
}

/// Replacing a character changes no other, and leaves none of it behind.
pub proof fn replacing_changes_that_character_only(s: Seq<char>, from: char, to: char, i: int)
    requires
        0 <= i < s.len(),
    ensures
        replaced(s, from, to).len() == s.len(),
        s[i] == from ==> replaced(s, from, to)[i] == to,
        s[i] != from ==> replaced(s, from, to)[i] == s[i],
{
}

/// Lower case of ASCII changes the capital letters to the small ones of the same place
/// in the alphabet, and nothing else.
pub proof fn lower_case_changes_capitals_only(s: Seq<char>, i: int)
    requires
        0 <= i < s.len(),
    ensures
        ascii_lowercase(s).len() == s.len(),
        'A' <= s[i] && s[i] <= 'Z' ==> ascii_lowercase(s)[i] as int - 'a' as int == s[i] as int
            - 'A' as int,
        !('A' <= s[i] && s[i] <= 'Z') ==> ascii_lowercase(s)[i] == s[i],
{
}

/// Shortening keeps the beginning of a text: all of it where it is short enough, and
/// exactly as many characters as asked for otherwise.
pub proof fn shortening_keeps_the_beginning(s: Seq<char>, n: int)
    requires
        n >= 0,
    ensures
        s.len() <= n ==> first_chars(s, n) == s,
        s.len() > n ==> first_chars(s, n).len() == n,
        forall|i: int| 0 <= i < first_chars(s, n).len() ==> first_chars(s, n)[i] == s[i],
{
}

/// A field is filled with spaces to its width and holds the text whole: at its right
/// end, or at its left.
pub proof fn fields_hold_their_text(s: Seq<char>, width: nat)
    ensures
        ends(padded(s, width), s),
        begins(filled(s, width), s),
        padded(s, width).len() == if s.len() < width { width } else { s.len() },
        filled(s, width).len() == if s.len() < width { width } else { s.len() },
        forall|i: int| 0 <= i < padded(s, width).len() - s.len() ==> padded(s, width)[i] == ' ',
        forall|i: int| s.len() <= i < filled(s, width).len() ==> filled(s, width)[i] == ' ',
    decreases width - s.len(),
{
    if s.len() >= width {
        assert(s.subrange(0, s.len() as int) =~= s);
    } else {
        let l = seq![' '] + s;
        let r = s.push(' ');
        lemma_padded(l, width);
        lemma_filled(r, width);
        let p = padded(s, width);
        let f = filled(s, width);
        assert(p.subrange(p.len() - s.len(), p.len() as int) =~= s) by {
            assert(p.subrange(p.len() - l.len(), p.len() as int) == l);
            assert forall|i: int| 0 <= i < s.len() implies p[p.len() - s.len() + i] == s[i] by {
                assert(p.subrange(p.len() - l.len(), p.len() as int)[i + 1] == l[i + 1]);
            }
        }
        assert(f.subrange(0, s.len() as int) =~= s) by {
            assert(f.subrange(0, r.len() as int) == r);
            assert forall|i: int| 0 <= i < s.len() implies f[i] == s[i] by {
                assert(f.subrange(0, r.len() as int)[i] == r[i]);
            }
        }
        assert(p[p.len() - l.len()] == l[0]) by {
            assert(p.subrange(p.len() - l.len(), p.len() as int)[0] == l[0]);
        }
        assert(f[s.len() as int] == r[s.len() as int]) by {
            assert(f.subrange(0, r.len() as int)[s.len() as int] == r[s.len() as int]);
        }
    }
}

proof fn lemma_padded(s: Seq<char>, width: nat)
    ensures
        ends(padded(s, width), s),
        padded(s, width).len() == if s.len() < width { width } else { s.len() },
        forall|i: int| 0 <= i < padded(s, width).len() - s.len() ==> padded(s, width)[i] == ' ',
    decreases width - s.len(),
{
    if s.len() >= width {
        assert(s.subrange(0, s.len() as int) =~= s);
    } else {
        let l = seq![' '] + s;
        lemma_padded(l, width);
        let p = padded(s, width);
        assert(p.subrange(p.len() - s.len(), p.len() as int) =~= s) by {
            assert forall|i: int| 0 <= i < s.len() implies p[p.len() - s.len() + i] == s[i] by {
                assert(p.subrange(p.len() - l.len(), p.len() as int)[i + 1] == l[i + 1]);
            }
        }
        assert(p[p.len() - l.len()] == l[0]) by {
            assert(p.subrange(p.len() - l.len(), p.len() as int)[0] == l[0]);
        }
    }
}

proof fn lemma_filled(s: Seq<char>, width: nat)
    ensures
        begins(filled(s, width), s),
        filled(s, width).len() == if s.len() < width { width } else { s.len() },
        forall|i: int| s.len() <= i < filled(s, width).len() ==> filled(s, width)[i] == ' ',
    decreases width - s.len(),
{
    if s.len() >= width {
        assert(s.subrange(0, s.len() as int) =~= s);
    } else {
        let r = s.push(' ');
        lemma_filled(r, width);
        let f = filled(s, width);
        assert(f.subrange(0, s.len() as int) =~= s) by {
            assert forall|i: int| 0 <= i < s.len() implies f[i] == s[i] by {
                assert(f.subrange(0, r.len() as int)[i] == r[i]);
            }
        }
        assert(f[s.len() as int] == r[s.len() as int]) by {
            assert(f.subrange(0, r.len() as int)[s.len() as int] == r[s.len() as int]);
        }
    }
}

/// The value of a hexadecimal digit in lower case.
pub open spec fn hex_value(c: char) -> int {
    if '0' <= c && c <= '9' {
        c as int - '0' as int
    } else {
        c as int - 'a' as int + 10
    }
}

/// Each byte is shown as two hexadecimal digits from which it can be read back.
pub proof fn bytes_can_be_read_from_their_digits(b: Seq<u8>, i: int)
    requires
        0 <= i < b.len(),
    ensures
        hex(b).len() == 2 * b.len(),
        hex_value(hex(b)[2 * i]) * 16 + hex_value(hex(b)[2 * i + 1]) == b[i],
        forall|k: int|
            0 <= k < hex(b).len() ==> ('0' <= (#[trigger] hex(b)[k]) && hex(b)[k] <= '9') || (
            'a' <= hex(b)[k] && hex(b)[k] <= 'f'),
    decreases b.len(),
{
    let d = b.drop_last();
    lemma_hex(d);
    lemma_hex(b);
    if i < d.len() {
        bytes_can_be_read_from_their_digits(d, i);
        assert(d[i] == b[i]);
    }
}

proof fn lemma_hex(b: Seq<u8>)
    ensures
        hex(b).len() == 2 * b.len(),
        forall|k: int|
            0 <= k < hex(b).len() ==> ('0' <= (#[trigger] hex(b)[k]) && hex(b)[k] <= '9') || (
            'a' <= hex(b)[k] && hex(b)[k] <= 'f'),
    decreases b.len(),
{
    if b.len() > 0 {
        lemma_hex(b.drop_last());
    }
}

/// Numbers are written in decimal digits, without a needless zero in front.
pub proof fn decimals_are_digits_without_leading_zeros(n: nat)
    ensures
        decimal(n).len() > 0,
        forall|i: int| 0 <= i < decimal(n).len() ==> '0' <= (#[trigger] decimal(n)[i]) && decimal(n)[i] <= '9',
        n > 0 ==> decimal(n)[0] != '0',
    decreases n,
{
    if n >= 10 {
        decimals_are_digits_without_leading_zeros(n / 10);
        let d = decimal(n / 10);
        assert forall|i: int| 0 <= i < decimal(n).len() implies '0' <= (#[trigger] decimal(n)[i])
            && decimal(n)[i] <= '9' by {
            if i < d.len() {
                assert(decimal(n)[i] == d[i]);
            }
        }
        assert(decimal(n)[0] == d[0]);
    }
}

/// The texts of a list of strings are theirs, one by one.
pub proof fn texts_are_those_of_the_strings(v: Seq<String>)
    ensures
        texts(v).len() == v.len(),
        forall|i: int| 0 <= i < v.len() ==> #[trigger] texts(v)[i] == v[i]@,
{
}

/// A numeral is a text of one or more of the ten digits.
pub proof fn numerals_are_made_of_digits(s: Seq<char>)
    ensures
        numeral(s) <==> s != Seq::<char>::empty() && forall|i: int|
            0 <= i < s.len() ==> '0' <= #[trigger] s[i] <= '9',
        numeral(s) ==> number_of(s) >= 0,
{
    if s.len() == 0 {
        assert(s =~= Seq::<char>::empty());
    }
}

} // verus!
