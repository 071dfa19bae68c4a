//! Text as sequences of characters: the operations the other modules build on.

use vstd::prelude::*;

verus! {

/// `String::push` appends one character to the end of the string.
pub assume_specification[ String::push ](s: &mut String, c: char)
    ensures
        final(s)@ == old(s)@.push(c),
;

/// What `format!("{:?}", text)` yields for a text: the text in double quotes,
/// with the escapes that `str`'s `Debug` applies.
pub uninterp spec fn debug_quoted(text: Seq<char>) -> Seq<char>;

/// `<str as Debug>::fmt`, through `format!`: the quoted form of a text. What the
/// escapes are is left to the name.
#[verifier::external_body]
pub(crate) fn quoted(text: &str) -> (r: String)
    ensures
        r@ == debug_quoted(text@),
{
    format!("{:?}", text)
}

/// What `String::from_utf8_lossy` makes of a byte sequence.
pub uninterp spec fn utf8_lossy(bytes: Seq<u8>) -> Seq<char>;

/// Whether a byte sequence occurs in another.
pub open spec fn holds_bytes(b: Seq<u8>, part: Seq<u8>) -> bool {
    exists|at: int| 0 <= at <= b.len() - part.len() && #[trigger] b.subrange(at, at + part.len()) == part
}

/// `String::from_utf8_lossy`: bytes that are UTF-8 decode to their characters, and what is
/// not is replaced by U+FFFD. So an ASCII text occurs in the result exactly where its
/// bytes occur in the input. What else stands for bytes that are not UTF-8 is left to the
/// name.
#[verifier::external_body]
pub(crate) fn decode_lossy(bytes: &[u8]) -> (r: String)
    ensures
        r@ == utf8_lossy(bytes@),
        vstd::utf8::valid_utf8(bytes@) ==> r@ == vstd::utf8::decode_utf8(bytes@),
        forall|m: Seq<char>|
            vstd::utf8::is_ascii_chars(m) && m.len() > 0 ==> #[trigger] contains_text(r@, m) == holds_bytes(
                bytes@,
                vstd::utf8::encode_utf8(m),
            ),
{
    String::from_utf8_lossy(bytes).into_owned()
}

/// The text that bytes stand for: their characters where they are UTF-8, and otherwise
/// what `String::from_utf8_lossy` makes of them.
pub open spec fn lossy_text(bytes: Seq<u8>) -> Seq<char> {
    if vstd::utf8::valid_utf8(bytes) {
        vstd::utf8::decode_utf8(bytes)
    } else {
        utf8_lossy(bytes)
    }
}

/// The characters of a text, in order.
pub fn chars_of(text: &str) -> (r: Vec<char>)
    ensures
        r@ == text@,
{
    let mut out: Vec<char> = Vec::new();
    for c in it: text.chars()
        invariant
            out@ == it.seq().take(it.index()),
            it.seq() == text@,
    {
        out.push(c);
    }
    out
}

/// The text made of the characters from `from` up to `to`.
pub fn text_of(chars: &[char], from: usize, to: usize) -> (r: String)
    requires
        from <= to <= chars@.len(),
    ensures
        r@ == chars@.subrange(from as int, to as int),
{
    let mut out = String::new();
    let mut i: usize = from;
    while i < to
        invariant
            from <= i <= to <= chars@.len(),
            out@ == chars@.subrange(from as int, i as int),
        decreases to - i,
    {
        out.push(chars[i]);
        i = i + 1;
    }
    out
}

/// Whether two texts hold the same characters.
pub fn same(a: &str, b: &str) -> (r: bool)
    ensures
        r == (a@ == b@),
{
    let x = chars_of(a);
    let y = chars_of(b);
    if x.len() != y.len() {
        return false;
    }
    let mut i: usize = 0;
    while i < x.len()
        invariant
            i <= x.len(),
            x.len() == y.len(),
            x@ == a@,
            y@ == b@,
            forall|j: int| 0 <= j < i ==> x@[j] == y@[j],
        decreases x.len() - i,
    {
        if x[i] != y[i] {
            return false;
        }
        i = i + 1;
    }
    assert(x@ =~= y@);
    true
}

/// `n` in decimal, without leading zeros.
pub open spec fn decimal(n: nat) -> Seq<char>
    decreases n,
{
    if n < 10 {
        seq![(('0' as u32) + n) as char]
    } else {
        decimal(n / 10).push((('0' as u32) + n % 10) as char)
    }
}

fn digit(d: u64) -> (c: char)
    requires
        d < 10,
    ensures
        c == (('0' as u32) + d) as char,
{
    match d {
        0 => '0',
        1 => '1',
        2 => '2',
        3 => '3',
        4 => '4',
        5 => '5',
        6 => '6',
        7 => '7',
        8 => '8',
        _ => '9',
    }
}

/// `n` in decimal.
pub fn decimal_text(n: u64) -> (r: String)
    ensures
        r@ == decimal(n as nat),
    decreases n,
{
    if n < 10 {
        let mut out = String::new();
        out.push(digit(n));
        assert(out@ =~= decimal(n as nat));
        out
    } else {
        let mut out = decimal_text(n / 10);
        out.push(digit(n % 10));
        out
    }
}

/// Alphabetical order by code point, which is the order of the UTF-8 bytes too.
pub open spec fn precedes(a: Seq<char>, b: Seq<char>) -> bool
    decreases b.len(),
{
    if b.len() == 0 {
        false
    } else if a.len() == 0 {
        true
    } else if a[0] != b[0] {
        (a[0] as int) < (b[0] as int)
    } else {
        precedes(a.skip(1), b.skip(1))
    }
}

/// No text precedes itself.
pub proof fn lemma_precedes_irreflexive(a: Seq<char>)
    ensures
        !precedes(a, a),
    decreases a.len(),
{
    if a.len() > 0 {
        lemma_precedes_irreflexive(a.skip(1));
    }
}

/// What precedes a text precedes whatever that text precedes.
pub proof fn lemma_precedes_transitive(a: Seq<char>, b: Seq<char>, c: Seq<char>)
    requires
        precedes(a, b),
        precedes(b, c),
    ensures
        precedes(a, c),
    decreases c.len(),
{
    if a.len() > 0 && b.len() > 0 && c.len() > 0 && a[0] == b[0] && b[0] == c[0] {
        lemma_precedes_transitive(a.skip(1), b.skip(1), c.skip(1));
    }
}

/// Of two different texts one precedes the other.
pub proof fn lemma_precedes_total(a: Seq<char>, b: Seq<char>)
    ensures
        a == b || precedes(a, b) || precedes(b, a),
    decreases a.len(),
{
    if a.len() == 0 {
        if b.len() == 0 {
            assert(a =~= b);
        }
    } else if b.len() > 0 && a[0] == b[0] {
        lemma_precedes_total(a.skip(1), b.skip(1));
        if a.skip(1) == b.skip(1) {
            assert(a =~= seq![a[0]] + a.skip(1));
            assert(b =~= seq![b[0]] + b.skip(1));
        }
    }
}

/// The code point of a character.
pub fn code_point(c: char) -> (r: u32)
    ensures
        r as int == c as int,
{
    c as u32
}

/// Whether one text comes before another in alphabetical order.
pub fn before(a: &str, b: &str) -> (r: bool)
    ensures
        r == precedes(a@, b@),
{
    let x = chars_of(a);
    let y = chars_of(b);
    let mut i: usize = 0;
    assert(a@.skip(0) =~= a@);
    assert(b@.skip(0) =~= b@);
    while i < x.len() && i < y.len() && x[i] == y[i]
        invariant
            i <= x@.len(),
            i <= y@.len(),
            x@ == a@,
            y@ == b@,
            precedes(a@, b@) == precedes(a@.skip(i as int), b@.skip(i as int)),
        decreases x.len() - i,
    {
        assert(a@.skip(i as int).skip(1) =~= a@.skip(i + 1));
        assert(b@.skip(i as int).skip(1) =~= b@.skip(i + 1));
        i = i + 1;
    }
    if i >= y.len() {
        false
    } else if i >= x.len() {
        true
    } else {
        code_point(x[i]) < code_point(y[i])
    }
}

/// The texts that a list of strings holds.
pub open spec fn texts(list: Seq<String>) -> Seq<Seq<char>> {
    list.map_values(|s: String| s@)
}

/// A copy of a list of strings.
pub fn copy_texts(list: &Vec<String>) -> (r: Vec<String>)
    ensures
        r@ == list@,
{
    let r = list.clone();
    assert(r@ =~= list@);
    r
}

/// Whether a list of strings holds a text.
pub fn holds(list: &Vec<String>, text: &str) -> (r: bool)
    ensures
        r == texts(list@).contains(text@),
{
    let mut i: usize = 0;
    while i < list.len()
        invariant
            i <= list.len(),
            forall|j: int| 0 <= j < i ==> list@[j]@ != text@,
        decreases list.len() - i,
    {
        if same(list[i].as_str(), text) {
            assert(texts(list@)[i as int] == text@);
            return true;
        }
        i = i + 1;
    }
    assert forall|j: int| 0 <= j < texts(list@).len() implies texts(list@)[j] != text@ by {
        assert(texts(list@)[j] == list@[j]@);
    }
    false
}

/// The pieces of a text between the characters that `cut` picks.
pub open spec fn split_by(s: Seq<char>, cut: spec_fn(char) -> bool) -> Seq<Seq<char>>
    decreases s.len(),
{
    if s.len() == 0 {
        seq![Seq::empty()]
    } else {
        let init = split_by(s.drop_last(), cut);
        if cut(s.last()) {
            init.push(Seq::empty())
        } else {
            init.drop_last().push(init.last().push(s.last()))
        }
    }
}

/// Picks one character.
pub open spec fn only(c: char) -> spec_fn(char) -> bool {
    |d: char| d == c
}

/// The pieces of a text between the occurrences of a character.
pub open spec fn split_on(s: Seq<char>, sep: char) -> Seq<Seq<char>> {
    split_by(s, only(sep))
}

/// `str::split` at a character.
pub fn split(text: &str, sep: char) -> (r: Vec<String>)
    ensures
        texts(r@) == split_on(text@, sep),
        r@.len() >= 1,
{
    let chars = chars_of(text);
    let mut out: Vec<String> = Vec::new();
    let mut piece = String::new();
    let mut i: usize = 0;
    let ghost cut = only(sep);
    assert(texts(out@).push(piece@) =~= split_by(text@.take(0), cut));
    while i < chars.len()
        invariant
            i <= chars@.len(),
            chars@ == text@,
            cut == only(sep),
            texts(out@).push(piece@) == split_by(text@.take(i as int), cut),
        decreases chars.len() - i,
    {
        let ghost now = text@.take(i + 1);
        assert(now.drop_last() =~= text@.take(i as int));
        assert(now.last() == chars@[i as int]);
        let ghost was = texts(out@).push(piece@);
        assert(was.drop_last() =~= texts(out@));
        if chars[i] == sep {
            out.push(piece);
            assert(texts(out@) =~= was);
            piece = String::new();
        } else {
            piece.push(chars[i]);
        }
        i = i + 1;
    }
    assert(text@.take(text@.len() as int) =~= text@);
    let ghost was = texts(out@).push(piece@);
    out.push(piece);
    assert(texts(out@) =~= was);
    out
}

/// The Unicode characters with the White_Space property.
pub open spec fn is_space(c: char) -> bool {
    let n = c as int;
    ||| 9 <= n <= 13
    ||| n == 32
    ||| n == 0x85
    ||| n == 0xa0
    ||| n == 0x1680
    ||| 0x2000 <= n <= 0x200a
    ||| n == 0x2028
    ||| n == 0x2029
    ||| n == 0x202f
    ||| n == 0x205f
    ||| n == 0x3000
}

/// Whether a character is white space.
pub fn space(c: char) -> (r: bool)
    ensures
        r == is_space(c),
{
    let n: u32 = code_point(c);
    (9 <= n && n <= 13) || n == 32 || n == 0x85 || n == 0xa0 || n == 0x1680 || (0x2000 <= n && n <= 0x200a)
        || n == 0x2028 || n == 0x2029 || n == 0x202f || n == 0x205f || n == 0x3000
}

/// The words of a text: what stands between runs of white space.
pub open spec fn words(s: Seq<char>) -> Seq<Seq<char>> {
    split_by(s, |c: char| is_space(c)).filter(|w: Seq<char>| w.len() > 0)
}

/// `str::split_whitespace`.
pub fn split_words(text: &str) -> (r: Vec<String>)
    ensures
        texts(r@) == words(text@),
{
    let chars = chars_of(text);
    let mut out: Vec<String> = Vec::new();
    let mut piece = String::new();
    let mut i: usize = 0;
    let ghost cut = |c: char| is_space(c);
    let ghost full = |w: Seq<char>| w.len() > 0;
    let ghost mut done: Seq<Seq<char>> = Seq::empty();
    assert(done.push(piece@) =~= split_by(text@.take(0), cut));
    assert(texts(out@) =~= done.filter(full)) by {
        reveal(Seq::filter);
    }
    while i < chars.len()
        invariant
            i <= chars@.len(),
            chars@ == text@,
            cut == (|c: char| is_space(c)),
            full == (|w: Seq<char>| w.len() > 0),
            done.push(piece@) == split_by(text@.take(i as int), cut),
            texts(out@) == done.filter(full),
        decreases chars.len() - i,
    {
        let ghost now = text@.take(i + 1);
        assert(now.drop_last() =~= text@.take(i as int));
        assert(now.last() == chars@[i as int]);
        let ghost was = done.push(piece@);
        assert(was.drop_last() =~= done);
        if space(chars[i]) {
            let ghost before_out = texts(out@);
            let ghost word = piece@;
            proof {
                done.lemma_filter_push(word, full);
                done = was;
            }
            if !piece.as_str().is_empty() {
                out.push(piece);
                assert(texts(out@) =~= before_out.push(word));
            }
            piece = String::new();
        } else {
            piece.push(chars[i]);
        }
        i = i + 1;
    }
    assert(text@.take(text@.len() as int) =~= text@);
    let ghost before_out = texts(out@);
    let ghost word = piece@;
    proof {
        done.lemma_filter_push(word, full);
    }
    if !piece.as_str().is_empty() {
        out.push(piece);
        assert(texts(out@) =~= before_out.push(word));
    }
    out
}

/// Texts with a separator between them.
pub open spec fn joined(parts: Seq<Seq<char>>, sep: Seq<char>) -> Seq<char>
    decreases parts.len(),
{
    if parts.len() == 0 {
        Seq::empty()
    } else if parts.len() == 1 {
        parts[0]
    } else {
        joined(parts.drop_last(), sep) + sep + parts.last()
    }
}

/// `[String]::join`.
pub fn join(parts: &Vec<String>, sep: &str) -> (r: String)
    ensures
        r@ == joined(texts(parts@), sep@),
{
    let mut out = String::new();
    let mut i: usize = 0;
    while i < parts.len()
        invariant
            i <= parts.len(),
            out@ == joined(texts(parts@).take(i as int), sep@),
        decreases parts.len() - i,
    {
        let ghost now = texts(parts@).take(i + 1);
        assert(now.drop_last() =~= texts(parts@).take(i as int));
        assert(now.last() == parts@[i as int]@);
        if i > 0 {
            out.append(sep);
            out.append(parts[i].as_str());
        } else {
            out = parts[i].clone();
        }
        i = i + 1;
    }
    assert(texts(parts@).take(parts@.len() as int) =~= texts(parts@));
    out
}

/// What is left of a text once its leading characters that `drop` picks are gone.
pub open spec fn trim_start_by(s: Seq<char>, drop: spec_fn(char) -> bool) -> Seq<char>
    decreases s.len(),
{
    if s.len() > 0 && drop(s[0]) {
        trim_start_by(s.skip(1), drop)
    } else {
        s
    }
}

/// What is left of a text once its trailing characters that `drop` picks are gone.
pub open spec fn trim_end_by(s: Seq<char>, drop: spec_fn(char) -> bool) -> Seq<char>
    decreases s.len(),
{
    if s.len() > 0 && drop(s.last()) {
        trim_end_by(s.drop_last(), drop)
    } else {
        s
    }
}

/// A text without the white space at its ends.
pub open spec fn trimmed(s: Seq<char>) -> Seq<char> {
    trim_end_by(trim_start_by(s, |c: char| is_space(c)), |c: char| is_space(c))
}

/// `str::trim`.
pub fn trim(text: &str) -> (r: String)
    ensures
        r@ == trimmed(text@),
{
    let chars = chars_of(text);
    let ghost drop = |c: char| is_space(c);
    let mut from: usize = 0;
    assert(text@.skip(0) =~= text@);
    while from < chars.len() && space(chars[from])
        invariant
            from <= chars@.len(),
            chars@ == text@,
            drop == (|c: char| is_space(c)),
            trim_start_by(text@, drop) == trim_start_by(text@.skip(from as int), drop),
        decreases chars.len() - from,
    {
        assert(text@.skip(from as int).skip(1) =~= text@.skip(from + 1));
        from = from + 1;
    }
    let ghost rest = text@.skip(from as int);
    assert(trim_start_by(text@, drop) == rest);
    let mut to: usize = chars.len();
    assert(text@.subrange(from as int, to as int) =~= rest);
    while to > from && space(chars[to - 1])
        invariant
            from <= to <= chars@.len(),
            chars@ == text@,
            drop == (|c: char| is_space(c)),
            trim_end_by(rest, drop) == trim_end_by(text@.subrange(from as int, to as int), drop),
        decreases to,
    {
        let ghost now = text@.subrange(from as int, to as int);
        assert(now.drop_last() =~= text@.subrange(from as int, to - 1));
        assert(now.last() == chars@[to - 1]);
        to = to - 1;
    }
    assert(to > from ==> text@.subrange(from as int, to as int).last() == chars@[to - 1]);
    text_of(&chars, from, to)
}

/// `str::trim_start_matches` with a character.
pub fn trim_start_char(text: &str, c: char) -> (r: String)
    ensures
        r@ == trim_start_by(text@, only(c)),
{
    let chars = chars_of(text);
    let ghost drop = only(c);
    let mut from: usize = 0;
    assert(text@.skip(0) =~= text@);
    while from < chars.len() && chars[from] == c
        invariant
            from <= chars@.len(),
            chars@ == text@,
            drop == only(c),
            trim_start_by(text@, drop) == trim_start_by(text@.skip(from as int), drop),
        decreases chars.len() - from,
    {
        assert(text@.skip(from as int).skip(1) =~= text@.skip(from + 1));
        from = from + 1;
    }
    assert(text@.skip(from as int) =~= text@.subrange(from as int, text@.len() as int));
    text_of(&chars, from, chars.len())
}

/// `str::trim_end_matches` with a character.
pub fn trim_end_char(text: &str, c: char) -> (r: String)
    ensures
        r@ == trim_end_by(text@, only(c)),
{
    let chars = chars_of(text);
    let ghost drop = only(c);
    let mut to: usize = chars.len();
    assert(text@.subrange(0, to as int) =~= text@);
    while to > 0 && chars[to - 1] == c
        invariant
            to <= chars@.len(),
            chars@ == text@,
            drop == only(c),
            trim_end_by(text@, drop) == trim_end_by(text@.subrange(0, to as int), drop),
        decreases to,
    {
        let ghost now = text@.subrange(0, to as int);
        assert(now.drop_last() =~= text@.subrange(0, to - 1));
        to = to - 1;
    }
    assert(to > 0 ==> text@.subrange(0, to as int).last() == chars@[to - 1]);
    text_of(&chars, 0, to)
}

/// `str::starts_with` a text.
pub fn starts_with(text: &str, prefix: &str) -> (r: bool)
    ensures
        r == prefix@.is_prefix_of(text@),
{
    let x = chars_of(text);
    let y = chars_of(prefix);
    if y.len() > x.len() {
        return false;
    }
    let mut i: usize = 0;
    while i < y.len()
        invariant
            i <= y@.len() <= x@.len(),
            x@ == text@,
            y@ == prefix@,
            forall|j: int| 0 <= j < i ==> x@[j] == y@[j],
        decreases y.len() - i,
    {
        if x[i] != y[i] {
            assert(text@.subrange(0, prefix@.len() as int)[i as int] != prefix@[i as int]);
            return false;
        }
        i = i + 1;
    }
    assert(text@.subrange(0, prefix@.len() as int) =~= prefix@);
    true
}

/// `str::ends_with` a text.
pub fn ends_with(text: &str, suffix: &str) -> (r: bool)
    ensures
        r == suffix@.is_suffix_of(text@),
{
    let x = chars_of(text);
    let y = chars_of(suffix);
    if y.len() > x.len() {
        return false;
    }
    let from: usize = x.len() - y.len();
    let mut i: usize = 0;
    while i < y.len()
        invariant
            i <= y.len() <= x.len(),
            from == x.len() - y.len(),
            x@ == text@,
            y@ == suffix@,
            forall|j: int| 0 <= j < i ==> x@[from + j] == y@[j],
        decreases y.len() - i,
    {
        if x[from + i] != y[i] {
            assert(text@.subrange(from as int, text@.len() as int)[i as int] != suffix@[i as int]);
            return false;
        }
        i = i + 1;
    }
    assert(text@.subrange(from as int, text@.len() as int) =~= suffix@);
    true
}

/// What follows a prefix, where the text starts with it.
pub open spec fn after_prefix(s: Seq<char>, prefix: Seq<char>) -> Option<Seq<char>> {
    if prefix.is_prefix_of(s) {
        Some(s.skip(prefix.len() as int))
    } else {
        None
    }
}

/// What precedes a suffix, where the text ends with it.
pub open spec fn before_suffix(s: Seq<char>, suffix: Seq<char>) -> Option<Seq<char>> {
    if suffix.is_suffix_of(s) {
        Some(s.take(s.len() - suffix.len()))
    } else {
        None
    }
}

/// `str::strip_prefix`.
pub fn strip_prefix(text: &str, prefix: &str) -> (r: Option<String>)
    ensures
        match r {
            Some(t) => after_prefix(text@, prefix@) == Some(t@),
            None => after_prefix(text@, prefix@) is None,
        },
{
    if starts_with(text, prefix) {
        let chars = chars_of(text);
        let from: usize = prefix.unicode_len();
        assert(text@.skip(from as int) =~= text@.subrange(from as int, text@.len() as int));
        Some(text_of(&chars, from, chars.len()))
    } else {
        None
    }
}

/// `str::strip_suffix`.
pub fn strip_suffix(text: &str, suffix: &str) -> (r: Option<String>)
    ensures
        match r {
            Some(t) => before_suffix(text@, suffix@) == Some(t@),
            None => before_suffix(text@, suffix@) is None,
        },
{
    if ends_with(text, suffix) {
        let chars = chars_of(text);
        let to: usize = chars.len() - suffix.unicode_len();
        assert(text@.take(to as int) =~= text@.subrange(0, to as int));
        Some(text_of(&chars, 0, to))
    } else {
        None
    }
}

/// The lower-case form of an ASCII letter; any other character is itself.
pub open spec fn lower(c: char) -> char {
    if 'A' <= c <= 'Z' {
        ((c as u32) + 32) as char
    } else {
        c
    }
}

/// A text with its ASCII letters in lower case.
pub open spec fn lowered(s: Seq<char>) -> Seq<char> {
    s.map_values(|c: char| lower(c))
}

fn lower_char(c: char) -> (r: char)
    ensures
        r == lower(c),
{
    let n: u32 = code_point(c);
    if 65 <= n && n <= 90 {
        ascii_char((n + 32) as u8)
    } else {
        c
    }
}

/// The ASCII character of a code.
pub fn ascii_char(b: u8) -> (c: char)
    requires
        b < 128,
    ensures
        c as int == b as int,
        c == b as char,
{
    b as char
}

/// `str::to_ascii_lowercase`.
pub fn to_lower(text: &str) -> (r: String)
    ensures
        r@ == lowered(text@),
{
    let chars = chars_of(text);
    let mut out = String::new();
    let mut i: usize = 0;
    while i < chars.len()
        invariant
            i <= chars@.len(),
            chars@ == text@,
            out@ == lowered(text@.take(i as int)),
        decreases chars.len() - i,
    {
        out.push(lower_char(chars[i]));
        assert(out@ =~= lowered(text@.take(i + 1)));
        i = i + 1;
    }
    assert(text@.take(text@.len() as int) =~= text@);
    out
}

/// `str::eq_ignore_ascii_case`.
pub fn same_ignoring_case(a: &str, b: &str) -> (r: bool)
    ensures
        r == (lowered(a@) == lowered(b@)),
{
    same(to_lower(a).as_str(), to_lower(b).as_str())
}

/// A text with one character put in place of another.
pub open spec fn with_char(s: Seq<char>, from: char, to: char) -> Seq<char> {
    s.map_values(|c: char| if c == from { to } else { c })
}

/// `str::replace` of one character by another.
pub fn replace_char(text: &str, from: char, to: char) -> (r: String)
    ensures
        r@ == with_char(text@, from, to),
{
    let chars = chars_of(text);
    let mut out = String::new();
    let mut i: usize = 0;
    while i < chars.len()
        invariant
            i <= chars@.len(),
            chars@ == text@,
            out@ == with_char(text@.take(i as int), from, to),
        decreases chars.len() - i,
    {
        if chars[i] == from {
            out.push(to);
        } else {
            out.push(chars[i]);
        }
        assert(out@ =~= with_char(text@.take(i + 1), from, to));
        i = i + 1;
    }
    assert(text@.take(text@.len() as int) =~= text@);
    out
}

/// Whether a text occurs in another at a place.
pub open spec fn occurs_at(s: Seq<char>, needle: Seq<char>, at: int) -> bool {
    0 <= at && at + needle.len() <= s.len() && s.subrange(at, at + needle.len()) == needle
}

/// Whether a text occurs in another.
pub open spec fn contains_text(s: Seq<char>, needle: Seq<char>) -> bool {
    exists|at: int| occurs_at(s, needle, at)
}

/// The first place from `from` on at which a text occurs in another.
pub fn find_from(s: &[char], needle: &[char], from: usize) -> (r: Option<usize>)
    ensures
        match r {
            Some(at) => from <= at && occurs_at(s@, needle@, at as int) && forall|j: int|
                from <= j < at ==> !occurs_at(s@, needle@, j),
            None => forall|j: int| from <= j ==> !occurs_at(s@, needle@, j),
        },
{
    if needle.len() > s.len() {
        return None;
    }
    let last: usize = s.len() - needle.len();
    let mut at: usize = from;
    while at <= last
        invariant
            from <= at,
            last == s.len() - needle.len(),
            forall|j: int| from <= j < at ==> !occurs_at(s@, needle@, j),
        decreases last + 1 - at,
    {
        let mut i: usize = 0;
        while i < needle.len() && s[at + i] == needle[i]
            invariant
                i <= needle@.len(),
                at <= last,
                last == s.len() - needle.len(),
                forall|j: int| 0 <= j < i ==> s@[at + j] == needle@[j],
            decreases needle.len() - i,
        {
            i = i + 1;
        }
        if i == needle.len() {
            assert(s@.subrange(at as int, at + needle@.len()) =~= needle@);
            return Some(at);
        }
        assert(s@.subrange(at as int, at + needle@.len())[i as int] != needle@[i as int]);
        if at == usize::MAX {
            return None;
        }
        at = at + 1;
    }
    None
}

/// `str::contains` a text.
pub fn contains(text: &str, needle: &str) -> (r: bool)
    ensures
        r == contains_text(text@, needle@),
{
    let s = chars_of(text);
    let n = chars_of(needle);
    match find_from(&s, &n, 0) {
        Some(at) => {
            assert(occurs_at(text@, needle@, at as int));
            true
        },
        None => false,
    }
}

/// Two texts, one after the other.
pub fn cat2(a: &str, b: &str) -> (r: String)
    ensures
        r@ == a@ + b@,
{
    let mut r = a.to_owned();
    r.append(b);
    r
}

/// Three texts, one after the other.
pub fn cat3(a: &str, b: &str, c: &str) -> (r: String)
    ensures
        r@ == a@ + b@ + c@,
{
    let mut r = a.to_owned();
    r.append(b);
    r.append(c);
    r
}

/// Four texts, one after the other.
pub fn cat4(a: &str, b: &str, c: &str, d: &str) -> (r: String)
    ensures
        r@ == a@ + b@ + c@ + d@,
{
    let mut r = a.to_owned();
    r.append(b);
    r.append(c);
    r.append(d);
    r
}

/// Five texts, one after the other.
pub fn cat5(a: &str, b: &str, c: &str, d: &str, e: &str) -> (r: String)
    ensures
        r@ == a@ + b@ + c@ + d@ + e@,
{
    let mut r = a.to_owned();
    r.append(b);
    r.append(c);
    r.append(d);
    r.append(e);
    r
}

/// Six texts, one after the other.
pub fn cat6(a: &str, b: &str, c: &str, d: &str, e: &str, f: &str) -> (r: String)
    ensures
        r@ == a@ + b@ + c@ + d@ + e@ + f@,
{
    let mut r = a.to_owned();
    r.append(b);
    r.append(c);
    r.append(d);
    r.append(e);
    r.append(f);
    r
}

/// Seven texts, one after the other.
pub fn cat7(a: &str, b: &str, c: &str, d: &str, e: &str, f: &str, g: &str) -> (r: String)
    ensures
        r@ == a@ + b@ + c@ + d@ + e@ + f@ + g@,
{
    let mut r = a.to_owned();
    r.append(b);
    r.append(c);
    r.append(d);
    r.append(e);
    r.append(f);
    r.append(g);
    r
}

/// Whether texts stand in alphabetical order, none twice.
pub open spec fn alphabetical(s: Seq<Seq<char>>) -> bool {
    forall|i: int, j: int| 0 <= i < j < s.len() ==> precedes(#[trigger] s[i], #[trigger] s[j])
}

/// Puts a text in its place in an ordered list, unless it is there.
fn place(list: &mut Vec<String>, text: String)
    requires
        alphabetical(texts(old(list)@)),
    ensures
        alphabetical(texts(final(list)@)),
        texts(final(list)@).to_set() == texts(old(list)@).to_set().insert(text@),
{
    let ghost was = texts(list@);
    let ghost new = text@;
    let mut i: usize = 0;
    while i < list.len() && before(list[i].as_str(), text.as_str())
        invariant
            i <= list@.len(),
            was == texts(list@),
            *list == *old(list),
            text@ == new,
            alphabetical(was),
            forall|j: int| 0 <= j < i ==> precedes(#[trigger] was[j], new),
        decreases list.len() - i,
    {
        assert(was[i as int] == list@[i as int]@);
        i = i + 1;
    }
    if i < list.len() && same(list[i].as_str(), text.as_str()) {
        proof {
            assert(was[i as int] == new);
            assert(was.to_set().insert(new) =~= was.to_set());
        }
        return ;
    }
    if i < list.len() {
        proof {
            assert(was[i as int] == list@[i as int]@);
            lemma_precedes_total(was[i as int], new);
        }
    }
    list.insert(i, text);
    proof {
        let now = texts(list@);
        assert(now =~= was.insert(i as int, new));
        assert forall|a: int, b: int| 0 <= a < b < now.len() implies precedes(#[trigger] now[a], #[trigger] now[b]) by {
            if b < i {
                assert(precedes(was[a], was[b]));
            } else if b == i {
                assert(precedes(was[a], new));
            } else if a == i {
                if b - 1 > i {
                    assert(precedes(was[i as int], was[b - 1]));
                    lemma_precedes_transitive(new, was[i as int], was[b - 1]);
                }
            } else if a < i {
                assert(precedes(was[a], was[b - 1]));
            } else {
                assert(precedes(was[a - 1], was[b - 1]));
            }
        }
        assert forall|t: Seq<char>| now.contains(t) <==> #[trigger] was.to_set().insert(new).contains(t) by {
            if now.contains(t) {
                let k = choose|k: int| 0 <= k < now.len() && now[k] == t;
                if k < i {
                    assert(was[k] == t);
                } else if k > i {
                    assert(was[k - 1] == t);
                }
            }
            if was.contains(t) {
                let k = choose|k: int| 0 <= k < was.len() && was[k] == t;
                if k < i {
                    assert(now[k] == t);
                } else {
                    assert(now[k + 1] == t);
                }
            }
            assert(now[i as int] == new);
        }
        assert(now.to_set() =~= was.to_set().insert(new));
    }
}

/// A list in alphabetical order, each text once.
pub fn sorted_unique(list: &Vec<String>) -> (r: Vec<String>)
    ensures
        alphabetical(texts(r@)),
        texts(r@).to_set() == texts(list@).to_set(),
        texts(r@) == ordered(texts(list@).to_set()),
{
    let mut out: Vec<String> = Vec::new();
    let mut i: usize = 0;
    assert(texts(out@).to_set() =~= texts(list@).take(0).to_set());
    while i < list.len()
        invariant
            i <= list@.len(),
            alphabetical(texts(out@)),
            texts(out@).to_set() == texts(list@).take(i as int).to_set(),
        decreases list.len() - i,
    {
        proof {
            let all = texts(list@);
            assert(all.take(i + 1) =~= all.take(i as int).push(all[i as int]));
            all.take(i as int).lemma_push_to_set_commute(all[i as int]);
        }
        place(&mut out, list[i].clone());
        i = i + 1;
    }
    assert(texts(list@).take(list@.len() as int) =~= texts(list@));
    proof {
        lemma_ordered(texts(out@));
    }
    out
}

/// A string added to a list adds its text to the texts.
pub proof fn lemma_texts_push(list: Seq<String>, s: String)
    ensures
        texts(list.push(s)) == texts(list).push(s@),
{
    assert(texts(list.push(s)) =~= texts(list).push(s@));
}

/// The place of the first occurrence of a character; the length where there is
/// none.
pub open spec fn first_at(s: Seq<char>, c: char) -> int
    decreases s.len(),
{
    if s.len() == 0 || s[0] == c {
        0
    } else {
        1 + first_at(s.skip(1), c)
    }
}

/// What precedes the first occurrence of a character, and what follows it.
pub open spec fn cut_once(s: Seq<char>, c: char) -> Option<(Seq<char>, Seq<char>)> {
    let at = first_at(s, c);
    if at < s.len() {
        Some((s.take(at), s.skip(at + 1)))
    } else {
        None
    }
}

/// The place of the first occurrence is the one before which there is none.
pub proof fn lemma_first_at(s: Seq<char>, c: char, i: int)
    requires
        0 <= i <= s.len(),
        forall|j: int| 0 <= j < i ==> s[j] != c,
        i < s.len() ==> s[i] == c,
    ensures
        first_at(s, c) == i,
    decreases s.len(),
{
    if i > 0 {
        lemma_first_at(s.skip(1), c, i - 1);
    }
}

/// `str::split_once` at a character.
pub fn split_once(text: &str, c: char) -> (r: Option<(String, String)>)
    ensures
        match r {
            Some(p) => cut_once(text@, c) == Some((p.0@, p.1@)),
            None => cut_once(text@, c) is None,
        },
{
    let chars = chars_of(text);
    let mut i: usize = 0;
    while i < chars.len() && chars[i] != c
        invariant
            i <= chars@.len(),
            chars@ == text@,
            forall|j: int| 0 <= j < i ==> text@[j] != c,
        decreases chars.len() - i,
    {
        i = i + 1;
    }
    proof {
        lemma_first_at(text@, c, i as int);
    }
    if i < chars.len() {
        assert(text@.take(i as int) =~= text@.subrange(0, i as int));
        assert(text@.skip(i + 1) =~= text@.subrange(i + 1, text@.len() as int));
        Some((text_of(&chars, 0, i), text_of(&chars, i + 1, chars.len())))
    } else {
        None
    }
}

/// Whether a text is made of decimal digits.
pub open spec fn all_digits(s: Seq<char>) -> bool {
    forall|i: int| 0 <= i < s.len() ==> '0' <= #[trigger] s[i] <= '9'
}

/// The number that decimal digits stand for.
pub open spec fn digits_value(s: Seq<char>) -> int
    decreases s.len(),
{
    if s.len() == 0 {
        0
    } else {
        digits_value(s.drop_last()) * 10 + (s.last() as int - '0' as int)
    }
}

/// The number that `i64`'s `FromStr` reads: an optional sign, then digits, within
/// the type's range.
pub open spec fn i64_reading(s: Seq<char>) -> Option<int> {
    let negative = s.len() > 0 && s[0] == '-';
    let signed = s.len() > 0 && (s[0] == '-' || s[0] == '+');
    let digits = if signed {
        s.skip(1)
    } else {
        s
    };
    if digits.len() == 0 || !all_digits(digits) {
        None
    } else {
        let n = if negative {
            -digits_value(digits)
        } else {
            digits_value(digits)
        };
        if i64::MIN <= n <= i64::MAX {
            Some(n)
        } else {
            None
        }
    }
}

proof fn lemma_digits_grow(s: Seq<char>, i: int)
    requires
        all_digits(s),
        0 <= i <= s.len(),
    ensures
        0 <= digits_value(s.take(i)) <= digits_value(s),
    decreases s.len(),
{
    if s.len() == 0 {
        assert(s.take(i) =~= s);
    } else {
        let init = s.drop_last();
        assert(all_digits(init));
        if i == s.len() {
            assert(s.take(i) =~= s);
            lemma_digits_grow(init, i - 1);
            assert(init.take(i - 1) =~= init);
        } else {
            lemma_digits_grow(init, i);
            assert(init.take(i) =~= s.take(i));
        }
        assert('0' <= s[s.len() - 1] <= '9');
    }
}

/// Reads a text as an `i64`.
pub fn parse_i64(text: &str) -> (r: Option<i64>)
    ensures
        match r {
            Some(n) => i64_reading(text@) == Some(n as int),
            None => i64_reading(text@) is None,
        },
{
    let chars = chars_of(text);
    let negative = chars.len() > 0 && chars[0] == '-';
    let from: usize = if negative || (chars.len() > 0 && chars[0] == '+') {
        1
    } else {
        0
    };
    let ghost digits = text@.skip(from as int);
    assert(text@.skip(0) =~= text@);
    if chars.len() == from {
        return None;
    }
    let mut value: i128 = 0;
    let mut i: usize = from;
    assert(digits.take(0) =~= Seq::empty());
    while i < chars.len()
        invariant
            from <= i <= chars@.len(),
            from < chars@.len(),
            chars@ == text@,
            digits == text@.skip(from as int),
            negative == (text@.len() > 0 && text@[0] == '-'),
            (from == 1) == (text@.len() > 0 && (text@[0] == '-' || text@[0] == '+')),
            from == 0 || from == 1,
            from == 0 ==> digits == text@,
            0 <= value <= 0x8000_0000_0000_0000,
            value == digits_value(digits.take(i - from)),
            forall|j: int| 0 <= j < i - from ==> '0' <= #[trigger] digits[j] <= '9',
        decreases chars.len() - i,
    {
        let code: u32 = code_point(chars[i]);
        assert(digits[i - from] == chars@[i as int]);
        if code < 48 || code > 57 {
            return None;
        }
        value = value * 10 + (code as i128 - 48);
        proof {
            let now = digits.take(i - from + 1);
            assert(now.drop_last() =~= digits.take(i - from));
            assert(now.last() == digits[i - from]);
        }
        i = i + 1;
        if value > 0x8000_0000_0000_0000 {
            proof {
                if all_digits(digits) {
                    lemma_digits_grow(digits, i - from);
                }
            }
            return None;
        }
    }
    assert(digits.take(digits.len() as int) =~= digits);
    assert(all_digits(digits));
    if negative {
        Some((-value) as i64)
    } else if value <= 0x7fff_ffff_ffff_ffff {
        Some(value as i64)
    } else {
        None
    }
}

/// A piece of a text is made of characters of the text that are not picked.
pub proof fn lemma_split_pieces(s: Seq<char>, cut: spec_fn(char) -> bool)
    ensures
        split_by(s, cut).len() >= 1,
        forall|i: int, k: int|
            0 <= i < split_by(s, cut).len() && 0 <= k < split_by(s, cut)[i].len() ==> !cut(
                #[trigger] split_by(s, cut)[i][k],
            ) && s.contains(split_by(s, cut)[i][k]),
    decreases s.len(),
{
    if s.len() > 0 {
        let init = s.drop_last();
        lemma_split_pieces(init, cut);
        let was = split_by(init, cut);
        let now = split_by(s, cut);
        assert(s[s.len() - 1] == s.last());
        assert forall|i: int, k: int| 0 <= i < now.len() && 0 <= k < now[i].len() implies !cut(
            #[trigger] now[i][k],
        ) && s.contains(now[i][k]) by {
            if cut(s.last()) {
                if i < was.len() {
                    assert(now[i] == was[i]);
                    let m = choose|m: int| 0 <= m < init.len() && init[m] == was[i][k];
                    assert(s[m] == was[i][k]);
                }
            } else {
                if i < was.len() - 1 {
                    assert(now[i] == was[i]);
                    let m = choose|m: int| 0 <= m < init.len() && init[m] == was[i][k];
                    assert(s[m] == was[i][k]);
                } else {
                    assert(now[i] == was.last().push(s.last()));
                    if k < was.last().len() {
                        assert(was[was.len() - 1][k] == now[i][k]);
                        let m = choose|m: int| 0 <= m < init.len() && init[m] == was[was.len() - 1][k];
                        assert(s[m] == now[i][k]);
                    }
                }
            }
        }
    }
}

/// What is left of a text after a trim is part of it.
pub proof fn lemma_trim_start_part(s: Seq<char>, drop: spec_fn(char) -> bool)
    ensures
        forall|k: int|
            0 <= k < trim_start_by(s, drop).len() ==> s.contains(#[trigger] trim_start_by(s, drop)[k]),
    decreases s.len(),
{
    if s.len() > 0 && drop(s[0]) {
        let rest = s.skip(1);
        lemma_trim_start_part(rest, drop);
        assert forall|k: int| 0 <= k < trim_start_by(s, drop).len() implies s.contains(
            #[trigger] trim_start_by(s, drop)[k],
        ) by {
            let m = choose|m: int| 0 <= m < rest.len() && rest[m] == trim_start_by(rest, drop)[k];
            assert(s[m + 1] == rest[m]);
        }
    }
}

/// The upper-case form of an ASCII letter; any other character is itself.
pub open spec fn upper(c: char) -> char {
    if 'a' <= c <= 'z' {
        ((c as u32) - 32) as char
    } else {
        c
    }
}

/// A text with its ASCII letters in upper case.
pub open spec fn uppered(s: Seq<char>) -> Seq<char> {
    s.map_values(|c: char| upper(c))
}

/// `str::to_ascii_uppercase`.
pub fn to_upper(text: &str) -> (r: String)
    ensures
        r@ == uppered(text@),
{
    let chars = chars_of(text);
    let mut out = String::new();
    let mut i: usize = 0;
    while i < chars.len()
        invariant
            i <= chars@.len(),
            chars@ == text@,
            out@ == uppered(text@.take(i as int)),
        decreases chars.len() - i,
    {
        let n: u32 = code_point(chars[i]);
        if 97 <= n && n <= 122 {
            out.push(ascii_char((n - 32) as u8));
        } else {
            out.push(chars[i]);
        }
        assert(out@ =~= uppered(text@.take(i + 1)));
        i = i + 1;
    }
    assert(text@.take(text@.len() as int) =~= text@);
    out
}

/// The bytes that a text takes in UTF-8.
pub open spec fn byte_len(s: Seq<char>) -> nat {
    vstd::utf8::encode_utf8(s).len()
}

/// The first place from `from` on at which a text occurs in another.
pub open spec fn place_of(s: Seq<char>, needle: Seq<char>, from: int) -> Option<int>
    decreases s.len() + 1 - from,
{
    if from < 0 || from + needle.len() > s.len() {
        None
    } else if occurs_at(s, needle, from) {
        Some(from)
    } else {
        place_of(s, needle, from + 1)
    }
}

proof fn lemma_place_of(s: Seq<char>, needle: Seq<char>, from: int, at: int)
    requires
        0 <= from <= at,
        forall|j: int| from <= j < at ==> !occurs_at(s, needle, j),
        occurs_at(s, needle, at) || at + needle.len() > s.len(),
    ensures
        place_of(s, needle, from) == if occurs_at(s, needle, at) {
            Some(at)
        } else {
            None::<int>
        },
    decreases at - from,
{
    if from < at && from + needle.len() <= s.len() {
        lemma_place_of(s, needle, from + 1, at);
    }
}

/// The first place at which a text occurs in another, from `from` on.
pub fn find(s: &[char], needle: &[char], from: usize) -> (r: Option<usize>)
    ensures
        match r {
            Some(at) => place_of(s@, needle@, from as int) == Some(at as int) && from <= at && at + needle@.len()
                <= s@.len(),
            None => place_of(s@, needle@, from as int) is None,
        },
{
    let r = find_from(s, needle, from);
    proof {
        match r {
            Some(at) => {
                lemma_place_of(s@, needle@, from as int, at as int);
            },
            None => {
                let far = from + s@.len() + 1;
                lemma_place_of(s@, needle@, from as int, far);
            },
        }
    }
    r
}

/// What follows the first occurrence of a text in another.
pub open spec fn behind(s: Seq<char>, needle: Seq<char>) -> Option<Seq<char>> {
    match place_of(s, needle, 0) {
        Some(at) => Some(s.skip(at + needle.len())),
        None => None,
    }
}

/// What follows the first occurrence of a text in another.
pub fn text_behind(text: &str, needle: &str) -> (r: Option<String>)
    ensures
        match r {
            Some(t) => behind(text@, needle@) == Some(t@),
            None => behind(text@, needle@) is None,
        },
{
    let s = chars_of(text);
    let n = chars_of(needle);
    match find(&s, &n, 0) {
        Some(at) => {
            let end: usize = s.len();
            let t = text_of(&s, at + n.len(), end);
            assert(t@ =~= text@.skip(at + needle@.len()));
            Some(t)
        },
        None => None,
    }
}

/// The last characters of a text, `n` of them at most.
pub open spec fn tail(s: Seq<char>, n: nat) -> Seq<char> {
    if s.len() <= n {
        s
    } else {
        s.skip(s.len() - n)
    }
}

/// The last characters of a text, `n` of them at most.
pub fn last_chars(text: &str, n: usize) -> (r: String)
    ensures
        r@ == tail(text@, n as nat),
{
    let chars = chars_of(text);
    let from: usize = if chars.len() <= n {
        0
    } else {
        chars.len() - n
    };
    let r = text_of(&chars, from, chars.len());
    assert(r@ =~= tail(text@, n as nat));
    r
}

/// A text without the white space at its end.
pub open spec fn trimmed_end(s: Seq<char>) -> Seq<char> {
    trim_end_by(s, |c: char| is_space(c))
}

/// `str::trim_end`.
pub fn trim_end(text: &str) -> (r: String)
    ensures
        r@ == trimmed_end(text@),
{
    let chars = chars_of(text);
    let ghost drop = |c: char| is_space(c);
    let mut to: usize = chars.len();
    assert(text@.subrange(0, to as int) =~= text@);
    while to > 0 && space(chars[to - 1])
        invariant
            to <= chars@.len(),
            chars@ == text@,
            drop == (|c: char| is_space(c)),
            trim_end_by(text@, drop) == trim_end_by(text@.subrange(0, to as int), drop),
        decreases to,
    {
        let ghost now = text@.subrange(0, to as int);
        assert(now.drop_last() =~= text@.subrange(0, to - 1));
        assert(now.last() == chars@[to - 1]);
        to = to - 1;
    }
    assert(to > 0 ==> text@.subrange(0, to as int).last() == chars@[to - 1]);
    text_of(&chars, 0, to)
}

/// The bytes that a character takes in UTF-8.
pub open spec fn char_bytes(c: char) -> nat {
    vstd::utf8::encode_scalar(c as u32).len()
}

/// The bytes that a character takes in UTF-8.
pub fn width(c: char) -> (r: usize)
    ensures
        r == char_bytes(c),
        1 <= r <= 4,
{
    let n: u32 = code_point(c);
    if n <= 0x7f {
        1
    } else if n <= 0x7ff {
        2
    } else if n <= 0xffff {
        3
    } else {
        4
    }
}

/// The longest prefix of a text that takes no more than so many bytes.
pub open spec fn prefix_within(s: Seq<char>, max: int) -> Seq<char>
    decreases s.len(),
{
    if s.len() == 0 || char_bytes(s[0]) > max {
        Seq::empty()
    } else {
        seq![s[0]] + prefix_within(s.skip(1), max - char_bytes(s[0]))
    }
}

/// The longest prefix of a text that takes no more than so many bytes.
pub fn head_within(text: &str, max: usize) -> (r: String)
    ensures
        r@ == prefix_within(text@, max as int),
{
    let chars = chars_of(text);
    let mut left: usize = max;
    let mut i: usize = 0;
    assert(text@.skip(0) =~= text@);
    assert(text@.take(0) + prefix_within(text@, max as int) =~= prefix_within(text@, max as int));
    while i < chars.len() && width(chars[i]) <= left
        invariant
            i <= chars@.len(),
            chars@ == text@,
            text@.take(i as int) + prefix_within(text@.skip(i as int), left as int) == prefix_within(
                text@,
                max as int,
            ),
        ensures
            i < chars@.len() ==> char_bytes(text@[i as int]) > left,
        decreases chars.len() - i,
    {
        proof {
            let rest = text@.skip(i as int);
            assert(rest[0] == text@[i as int]);
            assert(rest.skip(1) =~= text@.skip(i + 1));
            let then = prefix_within(rest.skip(1), left - char_bytes(rest[0]));
            assert(text@.take(i as int) + (seq![rest[0]] + then) =~= text@.take(i + 1) + then);
        }
        left = left - width(chars[i]);
        i = i + 1;
    }
    assert(prefix_within(text@.skip(i as int), left as int) =~= Seq::empty());
    let r = text_of(&chars, 0, i);
    assert(r@ =~= text@.take(i as int));
    assert(text@.take(i as int) + Seq::<char>::empty() =~= text@.take(i as int));
    r
}

/// The longest suffix of a text that takes no more than so many bytes.
pub open spec fn suffix_within(s: Seq<char>, max: nat) -> Seq<char>
    decreases s.len(),
{
    if s.len() == 0 || byte_len(s) <= max {
        s
    } else {
        suffix_within(s.skip(1), max)
    }
}

/// The longest suffix of a text that takes no more than so many bytes.
pub fn tail_within(text: &str, max: usize) -> (r: String)
    ensures
        r@ == suffix_within(text@, max as nat),
{
    let chars = chars_of(text);
    let mut left: usize = text.as_bytes().len();
    let mut i: usize = 0;
    assert(text@.skip(0) =~= text@);
    while i < chars.len() && left > max
        invariant
            i <= chars@.len(),
            chars@ == text@,
            left == byte_len(text@.skip(i as int)),
            suffix_within(text@.skip(i as int), max as nat) == suffix_within(text@, max as nat),
        decreases chars.len() - i,
    {
        proof {
            let rest = text@.skip(i as int);
            assert(rest[0] == text@[i as int]);
            assert(rest.skip(1) =~= text@.skip(i + 1));
            assert(rest.drop_first() =~= rest.skip(1));
            assert(byte_len(rest) == char_bytes(rest[0]) + byte_len(rest.skip(1)));
        }
        left = left - width(chars[i]);
        i = i + 1;
    }
    let r = text_of(&chars, i, chars.len());
    assert(r@ =~= text@.skip(i as int));
    r
}

/// A prefix within a bound is a prefix, keeps the bound, and is the longest that
/// does.
pub proof fn law_a_prefix_within_a_bound_is_the_longest(s: Seq<char>, max: int)
    requires
        max >= 0,
    ensures
        prefix_within(s, max).is_prefix_of(s),
        byte_len(prefix_within(s, max)) <= max,
        prefix_within(s, max).len() < s.len() ==> byte_len(s.take(1 + prefix_within(s, max).len() as int)) > max,
    decreases s.len(),
{
    let p = prefix_within(s, max);
    if s.len() == 0 {
        assert(p =~= s);
    } else if char_bytes(s[0]) > max {
        let one = s.take(1);
        assert(one.drop_first() =~= Seq::empty());
        assert(byte_len(one) == char_bytes(s[0]) + byte_len(one.drop_first()));
        assert(p.len() + 1 == 1);
    } else {
        let rest = s.skip(1);
        let q = prefix_within(rest, max - char_bytes(s[0]));
        law_a_prefix_within_a_bound_is_the_longest(rest, max - char_bytes(s[0]));
        assert(p =~= seq![s[0]] + q);
        assert(p.drop_first() =~= q);
        assert(byte_len(p) == char_bytes(p[0]) + byte_len(q));
        assert(s.take(p.len() as int) =~= p) by {
            assert(rest.take(q.len() as int) =~= q);
            assert forall|i: int| 0 < i < p.len() implies s[i] == p[i] by {
                assert(rest.take(q.len() as int)[i - 1] == q[i - 1]);
            }
        }
        assert(s.subrange(0, p.len() as int) =~= p);
        if p.len() < s.len() {
            let more = s.take(1 + p.len() as int);
            assert(more.drop_first() =~= rest.take(1 + q.len() as int));
            assert(byte_len(more) == char_bytes(more[0]) + byte_len(more.drop_first()));
        }
    }
}

/// A text from a place on, with each occurrence of another replaced.
pub open spec fn replaced_from(s: Seq<char>, needle: Seq<char>, with: Seq<char>, from: int) -> Seq<char>
    decreases s.len() - from,
{
    match place_of(s, needle, from) {
        Some(at) => if needle.len() > 0 && 0 <= from <= at && at + needle.len() <= s.len() {
            s.subrange(from, at) + with + replaced_from(s, needle, with, at + needle.len())
        } else {
            s.skip(from)
        },
        None => s.skip(from),
    }
}

/// A text with each occurrence of another replaced.
pub open spec fn replaced(s: Seq<char>, needle: Seq<char>, with: Seq<char>) -> Seq<char> {
    replaced_from(s, needle, with, 0)
}

/// `str::replace` of a text that is not empty.
pub fn replace(text: &str, needle: &str, with: &str) -> (r: String)
    requires
        needle@.len() > 0,
    ensures
        r@ == replaced(text@, needle@, with@),
{
    let s = chars_of(text);
    let n = chars_of(needle);
    let mut out = String::new();
    let mut from: usize = 0;
    assert(out@ + replaced_from(text@, needle@, with@, 0) =~= replaced(text@, needle@, with@));
    while from <= s.len()
        invariant
            from <= s@.len(),
            s@ == text@,
            n@ == needle@,
            needle@.len() > 0,
            out@ + replaced_from(text@, needle@, with@, from as int) == replaced(text@, needle@, with@),
        decreases s@.len() - from,
    {
        let end: usize = s.len();
        match find(&s, &n, from) {
            Some(at) => {
                let piece = text_of(&s, from, at);
                let ghost was = out@;
                out = cat3(out.as_str(), piece.as_str(), with);
                proof {
                    let rest = replaced_from(text@, needle@, with@, at + needle@.len());
                    assert(was + (piece@ + with@ + rest) =~= was + piece@ + with@ + rest);
                }
                from = at + n.len();
            },
            None => {
                let piece = text_of(&s, from, end);
                assert(piece@ =~= text@.skip(from as int));
                return cat2(out.as_str(), piece.as_str());
            },
        }
    }
    out
}

/// A text without the characters `c` at its ends.
pub open spec fn unwrapped_by(s: Seq<char>, c: char) -> Seq<char> {
    trim_end_by(trim_start_by(s, only(c)), only(c))
}

/// `str::trim_matches` with a character.
pub fn trim_char(text: &str, c: char) -> (r: String)
    ensures
        r@ == unwrapped_by(text@, c),
{
    trim_end_char(trim_start_char(text, c).as_str(), c)
}

/// The texts of a set in alphabetical order.
pub open spec fn ordered(set: Set<Seq<char>>) -> Seq<Seq<char>> {
    choose|r: Seq<Seq<char>>| #[trigger] alphabetical(r) && r.to_set() == set
}

proof fn lemma_alphabetical_unique(a: Seq<Seq<char>>, b: Seq<Seq<char>>)
    requires
        alphabetical(a),
        alphabetical(b),
        a.to_set() == b.to_set(),
    ensures
        a == b,
    decreases a.len(),
{
    if a.len() == 0 {
        if b.len() > 0 {
            assert(b.to_set().contains(b[0]));
            assert(a.to_set().contains(b[0]));
        }
        assert(a =~= b);
    } else {
        assert(a.to_set().contains(a[0]));
        assert(b.to_set().contains(a[0]));
        let x = a.last();
        let y = b.last();
        assert(a.to_set().contains(x));
        assert(b.to_set().contains(y));
        let j = choose|j: int| 0 <= j < b.len() && b[j] == x;
        let i = choose|i: int| 0 <= i < a.len() && a[i] == y;
        if x != y {
            assert(precedes(b[j], b[b.len() - 1]));
            assert(precedes(a[i], a[a.len() - 1]));
            lemma_precedes_transitive(x, y, x);
            lemma_precedes_irreflexive(x);
        }
        let c = a.drop_last();
        let d = b.drop_last();
        assert forall|t: Seq<char>| c.to_set().contains(t) <==> d.to_set().contains(t) by {
            lemma_precedes_irreflexive(x);
            if c.contains(t) {
                let k = choose|k: int| 0 <= k < c.len() && c[k] == t;
                assert(a[k] == t);
                assert(precedes(a[k], a[a.len() - 1]));
                assert(a.to_set().contains(t));
                assert(b.to_set().contains(t));
                let l = choose|l: int| 0 <= l < b.len() && b[l] == t;
                assert(d[l] == t);
            }
            if d.contains(t) {
                let k = choose|k: int| 0 <= k < d.len() && d[k] == t;
                assert(b[k] == t);
                assert(precedes(b[k], b[b.len() - 1]));
                assert(b.to_set().contains(t));
                assert(a.to_set().contains(t));
                let l = choose|l: int| 0 <= l < a.len() && a[l] == t;
                assert(c[l] == t);
            }
        }
        assert(c.to_set() =~= d.to_set());
        assert(alphabetical(c)) by {
            assert forall|p: int, q: int| 0 <= p < q < c.len() implies precedes(#[trigger] c[p], #[trigger] c[q]) by {
                assert(precedes(a[p], a[q]));
            }
        }
        assert(alphabetical(d)) by {
            assert forall|p: int, q: int| 0 <= p < q < d.len() implies precedes(#[trigger] d[p], #[trigger] d[q]) by {
                assert(precedes(b[p], b[q]));
            }
        }
        lemma_alphabetical_unique(c, d);
        assert(a =~= c.push(x));
        assert(b =~= d.push(y));
    }
}

/// A list in alphabetical order is the order of its set.
pub proof fn lemma_ordered(r: Seq<Seq<char>>)
    requires
        alphabetical(r),
    ensures
        ordered(r.to_set()) == r,
{
    lemma_alphabetical_unique(ordered(r.to_set()), r);
}

/// A list in alphabetical order with a text put in its place.
spec fn with_placed(r: Seq<Seq<char>>, t: Seq<char>) -> Seq<Seq<char>>
    decreases r.len(),
{
    if r.len() == 0 || precedes(r.last(), t) {
        r.push(t)
    } else {
        with_placed(r.drop_last(), t).push(r.last())
    }
}

proof fn lemma_with_placed(r: Seq<Seq<char>>, t: Seq<char>)
    requires
        alphabetical(r),
        !r.contains(t),
    ensures
        alphabetical(with_placed(r, t)),
        forall|x: Seq<char>| #[trigger] with_placed(r, t).contains(x) <==> r.contains(x) || x == t,
    decreases r.len(),
{
    let out = with_placed(r, t);
    if r.len() == 0 || precedes(r.last(), t) {
        assert forall|i: int, j: int| 0 <= i < j < out.len() implies precedes(#[trigger] out[i], #[trigger] out[j]) by {
            if j == r.len() && i < r.len() - 1 {
                assert(precedes(r[i], r[r.len() - 1]));
                lemma_precedes_transitive(r[i], r.last(), t);
            }
        }
        assert forall|x: Seq<char>| #[trigger] out.contains(x) <==> r.contains(x) || x == t by {
            assert(out[r.len() as int] == t);
            if r.contains(x) {
                let k = choose|k: int| 0 <= k < r.len() && r[k] == x;
                assert(out[k] == x);
            }
        }
    } else {
        let rest = r.drop_last();
        let last = r.last();
        assert(r.contains(r[r.len() - 1]));
        lemma_precedes_total(last, t);
        assert(precedes(t, last));
        assert forall|i: int, j: int| 0 <= i < j < rest.len() implies precedes(
            #[trigger] rest[i],
            #[trigger] rest[j],
        ) by {
            assert(precedes(r[i], r[j]));
        }
        assert(!rest.contains(t)) by {
            if rest.contains(t) {
                let k = choose|k: int| 0 <= k < rest.len() && rest[k] == t;
                assert(r[k] == t);
            }
        }
        lemma_with_placed(rest, t);
        let before = with_placed(rest, t);
        assert forall|i: int, j: int| 0 <= i < j < out.len() implies precedes(#[trigger] out[i], #[trigger] out[j]) by {
            if j == before.len() {
                assert(before.contains(before[i]));
                if before[i] != t {
                    let k = choose|k: int| 0 <= k < rest.len() && rest[k] == before[i];
                    assert(precedes(r[k], r[r.len() - 1]));
                }
            }
        }
        assert forall|x: Seq<char>| #[trigger] out.contains(x) <==> r.contains(x) || x == t by {
            assert(out[before.len() as int] == last);
            if before.contains(x) {
                let k = choose|k: int| 0 <= k < before.len() && before[k] == x;
                assert(out[k] == x);
            }
            if rest.contains(x) {
                let k = choose|k: int| 0 <= k < rest.len() && rest[k] == x;
                assert(r[k] == x);
            }
            if r.contains(x) && x != last {
                let k = choose|k: int| 0 <= k < r.len() && r[k] == x;
                assert(rest[k] == x);
            }
            if out.contains(x) && x != last {
                let k = choose|k: int| 0 <= k < out.len() && out[k] == x;
                assert(before[k] == x);
            }
        }
    }
}

proof fn lemma_can_be_ordered(set: Set<Seq<char>>) -> (r: Seq<Seq<char>>)
    requires
        set.finite(),
    ensures
        alphabetical(r),
        r.to_set() == set,
    decreases set.len(),
{
    if set.len() == 0 {
        let r = Seq::<Seq<char>>::empty();
        assert(r.to_set() =~= set);
        r
    } else {
        let t = set.choose();
        let before = lemma_can_be_ordered(set.remove(t));
        assert(!before.contains(t)) by {
            assert(!before.to_set().contains(t));
        }
        lemma_with_placed(before, t);
        let r = with_placed(before, t);
        assert forall|x: Seq<char>| r.to_set().contains(x) <==> set.contains(x) by {
            assert(before.to_set().contains(x) <==> set.remove(t).contains(x));
        }
        assert(r.to_set() =~= set);
        r
    }
}

/// The order of a set is a list of all that is in it, each once, in alphabetical order.
pub proof fn law_ordered_lists_the_set(set: Set<Seq<char>>)
    requires
        set.finite(),
    ensures
        alphabetical(ordered(set)),
        ordered(set).to_set() == set,
        ordered(set).no_duplicates(),
{
    let r = lemma_can_be_ordered(set);
    let o = ordered(set);
    assert forall|i: int, j: int| 0 <= i < j < o.len() implies o[i] != o[j] by {
        assert(precedes(o[i], o[j]));
        lemma_precedes_irreflexive(o[i]);
    }
}

proof fn lemma_split_behind(a: Seq<char>, b: Seq<char>, c: char)
    ensures
        split_on(a.push(c) + b, c) == split_on(a, c) + split_on(b, c),
        split_on(a, c).len() >= 1,
        split_on(b, c).len() >= 1,
    decreases b.len(),
{
    let s = a.push(c) + b;
    lemma_split_pieces(a, only(c));
    lemma_split_pieces(b, only(c));
    if b.len() == 0 {
        assert(b =~= Seq::empty());
        assert(s =~= a.push(c));
        assert(s.drop_last() =~= a);
        assert(split_on(s, c) =~= split_on(a, c).push(Seq::empty()));
        assert(split_on(b, c) =~= seq![Seq::<char>::empty()]);
        assert(split_on(s, c) =~= split_on(a, c) + split_on(b, c));
    } else {
        let init = b.drop_last();
        lemma_split_behind(a, init, c);
        assert(s.drop_last() =~= a.push(c) + init);
        assert(s.last() == b.last());
        let left = split_on(a, c);
        let right = split_on(init, c);
        assert((left + right).last() == right.last());
        assert((left + right).drop_last() =~= left + right.drop_last());
        assert(split_on(s, c) =~= left + split_on(b, c));
    }
}

proof fn lemma_split_nothing(s: Seq<char>, c: char)
    requires
        !s.contains(c),
    ensures
        split_on(s, c) == seq![s],
    decreases s.len(),
{
    if s.len() > 0 {
        let init = s.drop_last();
        assert forall|d: char| init.contains(d) implies s.contains(d) by {
            let i = choose|i: int| 0 <= i < init.len() && init[i] == d;
            assert(s[i] == d);
        }
        lemma_split_nothing(init, c);
        assert(s[s.len() - 1] == s.last());
        assert(s.contains(s.last()));
        assert(split_on(s, c) =~= seq![init.push(s.last())]);
        assert(init.push(s.last()) =~= s);
    } else {
        assert(s =~= Seq::empty());
    }
}

/// A text is cut at each separator and nowhere else: what has none in it is one piece, and
/// the pieces of two texts with a separator between them are those of the one and those of
/// the other.
pub proof fn law_a_text_is_cut_at_each_separator(a: Seq<char>, b: Seq<char>, c: char)
    ensures
        !a.contains(c) ==> split_on(a, c) == seq![a],
        split_on(a + seq![c] + b, c) == split_on(a, c) + split_on(b, c),
{
    assert(a + seq![c] + b =~= a.push(c) + b);
    lemma_split_behind(a, b, c);
    if !a.contains(c) {
        lemma_split_nothing(a, c);
    }
}

proof fn lemma_joined_grows(parts: Seq<Seq<char>>, sep: Seq<char>, x: char)
    requires
        parts.len() > 0,
    ensures
        joined(parts.drop_last().push(parts.last().push(x)), sep) == joined(parts, sep).push(x),
{
    let more = parts.drop_last().push(parts.last().push(x));
    assert(more.drop_last() =~= parts.drop_last());
    if parts.len() == 1 {
        assert(more.len() == 1);
        assert(joined(more, sep) =~= joined(parts, sep).push(x));
    } else {
        assert(joined(more, sep) =~= joined(parts, sep).push(x));
    }
}

/// Joining undoes cutting: the pieces of a text with the separator between them are the
/// text.
pub proof fn law_joining_undoes_cutting(s: Seq<char>, c: char)
    ensures
        joined(split_on(s, c), seq![c]) == s,
    decreases s.len(),
{
    if s.len() == 0 {
        assert(split_on(s, c) =~= seq![Seq::<char>::empty()]);
        assert(s =~= Seq::empty());
    } else {
        let init = s.drop_last();
        let before = split_on(init, c);
        law_joining_undoes_cutting(init, c);
        lemma_split_pieces(init, only(c));
        assert(init.push(s.last()) =~= s);
        if s.last() == c {
            let all = before.push(Seq::empty());
            assert(all.drop_last() =~= before);
            assert(split_on(s, c) == all);
            assert(joined(all, seq![c]) =~= s);
        } else {
            lemma_joined_grows(before, seq![c], s.last());
        }
    }
}

/// Texts are joined in order, each as it is, with the separator between every two.
pub proof fn law_texts_are_joined_in_order(parts: Seq<Seq<char>>, last: Seq<char>, sep: Seq<char>)
    ensures
        joined(Seq::empty(), sep).len() == 0,
        joined(seq![last], sep) == last,
        parts.len() > 0 ==> joined(parts.push(last), sep) == joined(parts, sep) + sep + last,
{
    assert(parts.push(last).drop_last() =~= parts);
}

/// A text is cut once at its first separator: what precedes it and what follows it are
/// handed out, and nothing where there is none.
pub proof fn law_a_text_is_cut_once(a: Seq<char>, b: Seq<char>, c: char)
    requires
        !a.contains(c),
    ensures
        cut_once(a + seq![c] + b, c) == Some((a, b)),
        cut_once(a, c) is None,
{
    let s = a + seq![c] + b;
    assert forall|j: int| 0 <= j < a.len() implies s[j] != c by {
        assert(a.contains(a[j]));
    }
    lemma_first_at(s, c, a.len() as int);
    assert(s.take(a.len() as int) =~= a);
    assert(s.skip(a.len() as int + 1) =~= b);
    assert forall|j: int| 0 <= j < a.len() implies a[j] != c by {
        assert(a.contains(a[j]));
    }
    lemma_first_at(a, c, a.len() as int);
}

proof fn lemma_trim_start(s: Seq<char>, drop: spec_fn(char) -> bool) -> (n: int)
    ensures
        0 <= n <= s.len(),
        trim_start_by(s, drop) == s.skip(n),
        forall|i: int| 0 <= i < n ==> drop(#[trigger] s[i]),
        n < s.len() ==> !drop(s[n]),
    decreases s.len(),
{
    if s.len() > 0 && drop(s[0]) {
        let m = lemma_trim_start(s.skip(1), drop);
        assert(s.skip(1).skip(m) =~= s.skip(m + 1));
        assert forall|i: int| 0 <= i < m + 1 implies drop(#[trigger] s[i]) by {
            if i > 0 {
                assert(s.skip(1)[i - 1] == s[i]);
            }
        }
        m + 1
    } else {
        assert(s.skip(0) =~= s);
        0
    }
}

proof fn lemma_trim_end(s: Seq<char>, drop: spec_fn(char) -> bool) -> (n: int)
    ensures
        0 <= n <= s.len(),
        trim_end_by(s, drop) == s.take(n),
        forall|i: int| n <= i < s.len() ==> drop(#[trigger] s[i]),
        n > 0 ==> !drop(s[n - 1]),
    decreases s.len(),
{
    if s.len() > 0 && drop(s.last()) {
        let m = lemma_trim_end(s.drop_last(), drop);
        assert(s.drop_last().take(m) =~= s.take(m));
        assert forall|i: int| m <= i < s.len() implies drop(#[trigger] s[i]) by {
            if i < s.len() - 1 {
                assert(s.drop_last()[i] == s[i]);
            }
        }
        m
    } else {
        assert(s.take(s.len() as int) =~= s);
        s.len() as int
    }
}

/// Trimming takes off what is picked, at the end that is meant, and nothing else.
pub proof fn law_trimming_takes_off_what_is_picked(s: Seq<char>, t: Seq<char>, c: char)
    requires
        forall|i: int| 0 <= i < t.len() ==> #[trigger] t[i] == c,
        s.len() > 0,
        s[0] != c,
        s.last() != c,
    ensures
        trim_start_by(t + s, only(c)) == s,
        trim_end_by(s + t, only(c)) == s,
        trim_start_by(s + t, only(c)) == s + t,
        trim_end_by(t + s, only(c)) == t + s,
        unwrapped_by(t + s + t, c) == s,
{
    let a = t + s;
    let n = lemma_trim_start(a, only(c));
    assert(n == t.len()) by {
        if n < t.len() {
            assert(a[n] == t[n]);
        }
        if n > t.len() {
            assert(only(c)(a[t.len() as int]));
        }
    }
    assert(a.skip(n) =~= s);
    let b = s + t;
    let m = lemma_trim_end(b, only(c));
    assert(m == s.len()) by {
        if m > s.len() {
            assert(b[m - 1] == t[m - 1 - s.len()]);
        }
        if m < s.len() {
            assert(only(c)(b[s.len() - 1]));
        }
    }
    assert(b.take(m) =~= s);
    assert(b[0] == s[0]);
    assert(a.last() == s.last());
    let w = t + s + t;
    let k = lemma_trim_start(w, only(c));
    assert(k == t.len()) by {
        if k < t.len() {
            assert(w[k] == t[k]);
        }
        if k > t.len() {
            assert(only(c)(w[t.len() as int]));
        }
    }
    assert(w.skip(k) =~= b);
}

/// A trimmed text is the text without the white space at its ends: what it starts and ends
/// with is none, and all that is gone is.
pub proof fn law_a_trimmed_text_has_no_space_at_its_ends(s: Seq<char>)
    ensures
        trimmed(s).len() > 0 ==> !is_space(trimmed(s)[0]) && !is_space(trimmed(s).last()),
        exists|a: Seq<char>, b: Seq<char>|
            s == #[trigger] (a + trimmed(s) + b) && (forall|i: int| 0 <= i < a.len() ==> is_space(#[trigger] a[i])) && (
            forall|i: int| 0 <= i < b.len() ==> is_space(#[trigger] b[i])),
{
    let drop = |c: char| is_space(c);
    let n = lemma_trim_start(s, drop);
    let rest = s.skip(n);
    let m = lemma_trim_end(rest, drop);
    let a = s.take(n);
    let b = rest.skip(m);
    assert(trimmed(s) == rest.take(m));
    assert(s =~= a + trimmed(s) + b);
    assert forall|i: int| 0 <= i < b.len() implies is_space(#[trigger] b[i]) by {
        assert(drop(rest[m + i]));
    }
    assert forall|i: int| 0 <= i < a.len() implies is_space(#[trigger] a[i]) by {
        assert(drop(s[i]));
    }
    if trimmed(s).len() > 0 {
        assert(trimmed(s)[0] == s[n]);
        assert(trimmed(s).last() == rest[m - 1]);
    }
}

/// Replacing changes what is found and nothing else: a text without the word stays, and
/// where the word is found first, what precedes it stays, the other takes its place, and
/// what follows is treated alike.
pub proof fn law_replacing_changes_what_is_found(s: Seq<char>, needle: Seq<char>, with: Seq<char>, at: int)
    requires
        needle.len() > 0,
    ensures
        !contains_text(s, needle) ==> replaced(s, needle, with) == s,
        occurs_at(s, needle, at) && (forall|j: int| 0 <= j < at ==> !occurs_at(s, needle, j)) ==> replaced(s, needle, with)
            == s.take(at) + with + replaced_from(s, needle, with, at + needle.len()),
{
    if !contains_text(s, needle) {
        lemma_place_of(s, needle, 0, s.len() as int);
        assert(s.skip(0) =~= s);
    }
    if occurs_at(s, needle, at) && (forall|j: int| 0 <= j < at ==> !occurs_at(s, needle, j)) {
        lemma_place_of(s, needle, 0, at);
        assert(s.subrange(0, at) =~= s.take(at));
    }
}

proof fn lemma_decimal_digits(n: nat)
    ensures
        decimal(n).len() > 0,
        all_digits(decimal(n)),
        digits_value(decimal(n)) == n,
    decreases n,
{
    if n < 10 {
        let s = decimal(n);
        assert(s.drop_last() =~= Seq::empty());
        assert(digits_value(s.drop_last()) == 0);
    } else {
        lemma_decimal_digits(n / 10);
        let s = decimal(n);
        assert(s.drop_last() =~= decimal(n / 10));
        assert forall|i: int| 0 <= i < s.len() implies '0' <= #[trigger] s[i] <= '9' by {
            if i < s.len() - 1 {
                assert(s[i] == decimal(n / 10)[i]);
            }
        }
    }
}

/// A number is read back from how it is written.
pub proof fn law_a_written_number_is_read_back(n: nat)
    requires
        n <= i64::MAX,
    ensures
        i64_reading(decimal(n)) == Some(n as int),
        n > 0 ==> i64_reading(seq!['-'] + decimal(n)) == Some(-(n as int)),
{
    lemma_decimal_digits(n);
    let s = decimal(n);
    assert('0' <= s[0] <= '9');
    let t = seq!['-'] + s;
    assert(t.skip(1) =~= s);
    assert(t[0] == '-');
}

/// The case of letters is all that changes: each letter is put in the case that is asked
/// for, and what is no letter stays.
pub proof fn law_only_the_case_of_letters_changes(s: Seq<char>, i: int)
    requires
        0 <= i < s.len(),
    ensures
        lowered(s).len() == s.len() && uppered(s).len() == s.len(),
        lowered(uppered(s)) == lowered(s),
        uppered(lowered(s)) == uppered(s),
        lowered(s)[i] == s[i] || ('A' <= s[i] <= 'Z' && lowered(s)[i] as int == s[i] as int + 32),
        uppered(s)[i] == s[i] || ('a' <= s[i] <= 'z' && uppered(s)[i] as int == s[i] as int - 32),
        !('A' <= lowered(s)[i] <= 'Z'),
        !('a' <= uppered(s)[i] <= 'z'),
{
    assert(lowered(uppered(s)) =~= lowered(s));
    assert(uppered(lowered(s)) =~= uppered(s));
}

/// What stands behind the first occurrence of a text is found, and the end of a text is its
/// last characters.
pub proof fn law_what_stands_behind_is_found(s: Seq<char>, needle: Seq<char>, at: int, n: nat)
    ensures
        occurs_at(s, needle, at) && (forall|j: int| 0 <= j < at ==> !occurs_at(s, needle, j)) ==> behind(s, needle) == Some(
            s.skip(at + needle.len()),
        ),
        !contains_text(s, needle) ==> behind(s, needle) is None,
        tail(s, n).is_suffix_of(s),
        tail(s, n).len() == (if s.len() <= n {
            s.len()
        } else {
            n
        }),
{
    if occurs_at(s, needle, at) && (forall|j: int| 0 <= j < at ==> !occurs_at(s, needle, j)) {
        lemma_place_of(s, needle, 0, at);
    }
    if !contains_text(s, needle) {
        lemma_place_of(s, needle, 0, s.len() as int + 1);
    }
    let t = tail(s, n);
    assert(s.subrange(s.len() - t.len(), s.len() as int) =~= t);
}

/// A text without the space at its end is the text up to its last character that is none.
pub proof fn law_a_text_is_trimmed_at_its_end(s: Seq<char>)
    ensures
        trimmed_end(s).is_prefix_of(s),
        trimmed_end(s).len() > 0 ==> !is_space(trimmed_end(s).last()),
        forall|i: int| trimmed_end(s).len() <= i < s.len() ==> is_space(#[trigger] s[i]),
{
    let drop = |c: char| is_space(c);
    let n = lemma_trim_end(s, drop);
    assert(s.subrange(0, n) =~= s.take(n));
    assert forall|i: int| trimmed_end(s).len() <= i < s.len() implies is_space(#[trigger] s[i]) by {
        assert(drop(s[i]));
    }
}

proof fn lemma_words(s: Seq<char>)
    ensures
        forall|i: int|
            0 <= i < words(s).len() ==> (#[trigger] words(s)[i]).len() > 0 && forall|k: int|
                0 <= k < words(s)[i].len() ==> !is_space(#[trigger] words(s)[i][k]),
{
    let cut = |c: char| is_space(c);
    let keep = |w: Seq<char>| w.len() > 0;
    let pieces = split_by(s, cut);
    lemma_split_pieces(s, cut);
    assert forall|i: int| 0 <= i < words(s).len() implies (#[trigger] words(s)[i]).len() > 0 && forall|k: int|
        0 <= k < words(s)[i].len() ==> !is_space(#[trigger] words(s)[i][k]) by {
        pieces.lemma_filter_pred(keep, i);
        assert(keep(words(s)[i]));
        assert(words(s).contains(words(s)[i]));
        pieces.lemma_filter_contains_rev(keep, words(s)[i]);
        let j = choose|j: int| 0 <= j < pieces.len() && pieces[j] == words(s)[i];
        assert forall|k: int| 0 <= k < words(s)[i].len() implies !is_space(#[trigger] words(s)[i][k]) by {
            assert(!cut(pieces[j][k]));
        }
    }
}

/// The words of a text are what stands between white space, none of them empty, and none
/// with any in it.
pub proof fn law_words_have_no_space_in_them(s: Seq<char>, i: int, k: int)
    requires
        0 <= i < words(s).len(),
        0 <= k < words(s)[i].len(),
    ensures
        words(s)[i].len() > 0,
        !is_space(words(s)[i][k]),
{
    lemma_words(s);
}

} // verus!
