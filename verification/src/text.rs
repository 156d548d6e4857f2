//! Text operations on strings, with their meaning stated over sequences of
//! characters.

use vstd::prelude::*;

verus! {

/// `String::push` adds one character at the end of the text.
pub assume_specification[ String::push ](text: &mut String, c: char)
    ensures
        final(text)@ == old(text)@.push(c),
;

/// The characters with the property White_Space of Unicode.
pub open spec fn whitespace(c: char) -> bool {
    let code = c as u32;
    ||| 0x9 <= code <= 0xd
    ||| code == 0x20
    ||| code == 0x85
    ||| code == 0xa0
    ||| code == 0x1680
    ||| 0x2000 <= code <= 0x200a
    ||| 0x2028 <= code <= 0x2029
    ||| code == 0x202f
    ||| code == 0x205f
    ||| code == 0x3000
}

/// `char::is_whitespace`: whether Unicode gives the character the property
/// White_Space.
#[verifier::external_body]
pub(crate) fn is_whitespace(c: char) -> (r: bool)
    ensures
        r == whitespace(c),
{
    c.is_whitespace()
}

/// The text as the standard library quotes it for debugging.
pub uninterp spec fn quoted_text(text: Seq<char>) -> Seq<char>;

/// The `Debug` rendering of a string: double quotes around it, with quotes,
/// backslashes and unprintable characters escaped. Which characters are
/// escaped is not said here.
#[verifier::external_body]
pub(crate) fn quoted(text: &str) -> (r: String)
    ensures
        r@ == quoted_text(text@),
{
    format!("{:?}", text)
}

/// The characters of a text.
pub fn chars_of(text: &str) -> (r: Vec<char>)
    ensures
        r@ == text@,
{
    let mut r: Vec<char> = Vec::new();
    for c in it: text.chars()
        invariant
            it.seq() == text@,
            r@ == text@.take(it.index()),
    {
        r.push(c);
        proof {
            assert(text@.take(it.index() + 1) =~= text@.take(it.index()).push(c));
        }
    }
    proof {
        assert(text@.take(text@.len() as int) =~= text@);
    }
    r
}

/// The text made of the characters `chars[from..to]`.
pub fn text_of(chars: &Vec<char>, from: usize, to: usize) -> (r: String)
    requires
        from <= to <= chars.len(),
    ensures
        r@ == chars@.subrange(from as int, to as int),
{
    let mut r = String::new();
    let mut i: usize = from;
    while i < to
        invariant
            from <= i <= to <= chars.len(),
            r@ == chars@.subrange(from as int, i as int),
        decreases to - i,
    {
        r.push(chars[i]);
        i += 1;
        proof {
            assert(chars@.subrange(from as int, i as int) =~= chars@.subrange(from as int, i - 1).push(
                chars@[i - 1],
            ));
        }
    }
    r
}

/// Whether two texts are the same.
pub fn same_text(a: &str, b: &str) -> (r: bool)
    ensures
        r == (a@ == b@),
{
    a.to_owned() == b.to_owned()
}

/// Two texts one after the other.
pub fn concat(a: &str, b: &str) -> (r: String)
    ensures
        r@ == a@ + b@,
{
    let mut r = a.to_owned();
    r.append(b);
    r
}

/// Three texts one after the other.
pub fn concat3(a: &str, b: &str, c: &str) -> (r: String)
    ensures
        r@ == a@ + b@ + c@,
{
    let mut r = a.to_owned();
    r.append(b);
    r.append(c);
    r
}

/// Whether `text` starts with `prefix`.
pub open spec fn begins_with(text: Seq<char>, prefix: Seq<char>) -> bool {
    prefix.len() <= text.len() && text.take(prefix.len() as int) == prefix
}

/// Whether `text` ends with `suffix`.
pub open spec fn finishes_with(text: Seq<char>, suffix: Seq<char>) -> bool {
    suffix.len() <= text.len() && text.skip(text.len() - suffix.len()) == suffix
}

/// Whether `pattern` stands in `text` at position `at`.
pub open spec fn occurs_at(text: Seq<char>, pattern: Seq<char>, at: int) -> bool {
    0 <= at && at + pattern.len() <= text.len() && text.subrange(at, at + pattern.len()) == pattern
}

/// Whether `pattern` stands somewhere in `text`.
pub open spec fn occurs_in(text: Seq<char>, pattern: Seq<char>) -> bool {
    exists|at: int| #[trigger] occurs_at(text, pattern, at)
}

fn matches_at(text: &Vec<char>, pattern: &Vec<char>, at: usize) -> (r: bool)
    requires
        at + pattern.len() <= text.len(),
    ensures
        r == occurs_at(text@, pattern@, at as int),
{
    let mut i: usize = 0;
    while i < pattern.len()
        invariant
            i <= pattern.len(),
            at + pattern.len() <= text.len(),
            forall|k: int| 0 <= k < i ==> text@[at + k] == pattern@[k],
        decreases pattern.len() - i,
    {
        if text[at + i] != pattern[i] {
            proof {
                assert(text@.subrange(at as int, at + pattern@.len())[i as int] != pattern@[i as int]);
            }
            return false;
        }
        i += 1;
    }
    proof {
        assert(text@.subrange(at as int, at + pattern@.len()) =~= pattern@);
    }
    true
}

/// Whether `text` starts with `prefix`.
pub fn starts_with(text: &str, prefix: &str) -> (r: bool)
    ensures
        r == begins_with(text@, prefix@),
{
    let t = chars_of(text);
    let p = chars_of(prefix);
    if p.len() > t.len() {
        return false;
    }
    proof {
        assert(t@.subrange(0, p@.len() as int) =~= text@.take(p@.len() as int));
    }
    matches_at(&t, &p, 0)
}

/// Whether `text` ends with `suffix`.
pub fn ends_with(text: &str, suffix: &str) -> (r: bool)
    ensures
        r == finishes_with(text@, suffix@),
{
    let t = chars_of(text);
    let p = chars_of(suffix);
    if p.len() > t.len() {
        return false;
    }
    proof {
        assert(t@.subrange(t@.len() - p@.len(), t@.len() as int) =~= text@.skip(
            t@.len() - p@.len(),
        ));
    }
    matches_at(&t, &p, t.len() - p.len())
}

/// Whether `pattern` stands somewhere in `text`.
pub fn contains(text: &str, pattern: &str) -> (r: bool)
    ensures
        r == occurs_in(text@, pattern@),
{
    let t = chars_of(text);
    let p = chars_of(pattern);
    if p.len() > t.len() {
        return false;
    }
    let last: usize = t.len() - p.len();
    let mut at: usize = 0;
    while at <= last
        invariant
            t@ == text@,
            p@ == pattern@,
            p.len() <= t.len(),
            last == t.len() - p.len(),
            at <= last + 1,
            forall|k: int| 0 <= k < at ==> !#[trigger] occurs_at(text@, pattern@, k),
        decreases last + 1 - at,
    {
        if matches_at(&t, &p, at) {
            return true;
        }
        if at == last {
            proof {
                assert forall|k: int| !#[trigger] occurs_at(text@, pattern@, k) by {
                    if k == at {
                    }
                }
            }
            return false;
        }
        at += 1;
    }
    false
}

/// The position of the last `c` in `text`, or -1.
pub open spec fn last_position(text: Seq<char>, c: char) -> int
    decreases text.len(),
{
    if text.len() == 0 {
        -1
    } else if text.last() == c {
        text.len() - 1
    } else {
        last_position(text.drop_last(), c)
    }
}

/// The last position of a character is where it stands with none after it.
pub proof fn lemma_last_position(text: Seq<char>, c: char)
    ensures
        -1 <= last_position(text, c) < text.len(),
        last_position(text, c) >= 0 ==> text[last_position(text, c)] == c,
        forall|k: int| last_position(text, c) < k < text.len() ==> text[k] != c,
    decreases text.len(),
{
    if text.len() > 0 && text.last() != c {
        lemma_last_position(text.drop_last(), c);
        assert forall|k: int| last_position(text, c) < k < text.len() implies text[k] != c by {
            if k < text.len() - 1 {
                assert(text.drop_last()[k] == text[k]);
            }
        }
    }
}

/// Where `c` stands last in `chars`, if it does.
pub fn find_last(chars: &Vec<char>, c: char) -> (r: Option<usize>)
    ensures
        match r {
            Some(at) => at == last_position(chars@, c),
            None => last_position(chars@, c) == -1,
        },
        r matches Some(at) ==> at < chars.len() && chars@[at as int] == c,
{
    let mut n: usize = chars.len();
    proof {
        assert(chars@.take(n as int) =~= chars@);
    }
    while n > 0
        invariant
            n <= chars.len(),
            last_position(chars@.take(n as int), c) == last_position(chars@, c),
        decreases n,
    {
        proof {
            assert(chars@.take(n as int).drop_last() =~= chars@.take(n - 1));
            assert(chars@.take(n as int).last() == chars@[n - 1]);
        }
        if chars[n - 1] == c {
            return Some(n - 1);
        }
        n -= 1;
    }
    None
}

/// Whether `c` occurs in `text`.
pub fn contains_char(text: &str, c: char) -> (r: bool)
    ensures
        r == text@.contains(c),
{
    let chars = chars_of(text);
    proof {
        lemma_last_position(text@, c);
    }
    match find_last(&chars, c) {
        Some(_) => true,
        None => false,
    }
}

/// `text` without the white space at its start.
pub open spec fn trim_start_of(text: Seq<char>) -> Seq<char>
    decreases text.len(),
{
    if text.len() > 0 && whitespace(text[0]) {
        trim_start_of(text.drop_first())
    } else {
        text
    }
}

/// `text` without the white space at its end.
pub open spec fn trim_end_of(text: Seq<char>) -> Seq<char>
    decreases text.len(),
{
    if text.len() > 0 && whitespace(text.last()) {
        trim_end_of(text.drop_last())
    } else {
        text
    }
}

/// `text` without the white space at both ends.
pub open spec fn trimmed(text: Seq<char>) -> Seq<char> {
    trim_end_of(trim_start_of(text))
}

/// `text` without the white space at both ends.
pub fn trim(text: &str) -> (r: String)
    ensures
        r@ == trimmed(text@),
{
    let chars = chars_of(text);
    let mut from: usize = 0;
    proof {
        assert(chars@.skip(0) =~= chars@);
    }
    while from < chars.len() && is_whitespace(chars[from])
        invariant
            from <= chars.len(),
            trim_start_of(chars@.skip(from as int)) == trim_start_of(chars@),
        decreases chars.len() - from,
    {
        proof {
            assert(chars@.skip(from as int)[0] == chars@[from as int]);
            assert(chars@.skip(from as int).drop_first() =~= chars@.skip(from + 1));
        }
        from += 1;
    }
    proof {
        if from < chars.len() {
            assert(chars@.skip(from as int)[0] == chars@[from as int]);
        }
        assert(trim_start_of(chars@) == chars@.skip(from as int));
        assert(chars@.skip(from as int) =~= chars@.subrange(from as int, chars@.len() as int));
    }
    let mut to: usize = chars.len();
    while to > from && is_whitespace(chars[to - 1])
        invariant
            from <= to <= chars.len(),
            trim_end_of(chars@.subrange(from as int, to as int)) == trimmed(chars@),
        decreases to,
    {
        proof {
            let part = chars@.subrange(from as int, to as int);
            assert(part.last() == chars@[to - 1]);
            assert(part.drop_last() =~= chars@.subrange(from as int, to - 1));
        }
        to -= 1;
    }
    proof {
        let part = chars@.subrange(from as int, to as int);
        if to > from {
            assert(part.last() == chars@[to - 1]);
        }
    }
    text_of(&chars, from, to)
}

/// Whether nothing but white space stands in `text`.
pub fn is_blank(text: &str) -> (r: bool)
    ensures
        r == (trimmed(text@).len() == 0),
{
    let t = trim(text);
    t.as_str().is_empty()
}

/// `text` without the run of `c` at its end.
pub open spec fn without_trailing(text: Seq<char>, c: char) -> Seq<char>
    decreases text.len(),
{
    if text.len() > 0 && text.last() == c {
        without_trailing(text.drop_last(), c)
    } else {
        text
    }
}

/// `text` without the run of `c` at its end.
pub fn trim_end_char(text: &str, c: char) -> (r: String)
    ensures
        r@ == without_trailing(text@, c),
{
    let chars = chars_of(text);
    let mut to: usize = chars.len();
    proof {
        assert(chars@.take(to as int) =~= chars@);
    }
    while to > 0 && chars[to - 1] == c
        invariant
            to <= chars.len(),
            without_trailing(chars@.take(to as int), c) == without_trailing(chars@, c),
        decreases to,
    {
        proof {
            assert(chars@.take(to as int).last() == chars@[to - 1]);
            assert(chars@.take(to as int).drop_last() =~= chars@.take(to - 1));
        }
        to -= 1;
    }
    proof {
        if to > 0 {
            assert(chars@.take(to as int).last() == chars@[to - 1]);
        }
        assert(chars@.take(to as int) =~= chars@.subrange(0, to as int));
    }
    text_of(&chars, 0, to)
}

/// The digit character of a number below ten.
pub open spec fn digit(n: nat) -> char {
    (48 + n) as char
}

/// A natural number in decimal.
pub open spec fn decimal(n: nat) -> Seq<char>
    decreases n,
{
    if n < 10 {
        seq![digit(n)]
    } else {
        decimal(n / 10).push(digit(n % 10))
    }
}

/// An integer in decimal, with a sign where it is negative.
pub open spec fn signed_decimal(n: int) -> Seq<char> {
    if n < 0 {
        seq!['-'] + decimal((-n) as nat)
    } else {
        decimal(n as nat)
    }
}

/// A natural number in decimal.
pub fn decimal_text(n: u64) -> (r: String)
    ensures
        r@ == decimal(n as nat),
    decreases n,
{
    let low: u8 = (n % 10) as u8;
    let c: char = (48 + low) as char;
    if n < 10 {
        let mut r = String::new();
        r.push(c);
        proof {
            assert(r@ =~= decimal(n as nat));
        }
        r
    } else {
        let mut r = decimal_text(n / 10);
        r.push(c);
        r
    }
}

/// An integer in decimal.
pub fn signed_decimal_text(n: i64) -> (r: String)
    ensures
        r@ == signed_decimal(n as int),
{
    if n >= 0 {
        decimal_text(n as u64)
    } else {
        let magnitude: u64 = ((-(n + 1)) as u64) + 1;
        let digits = decimal_text(magnitude);
        let mut r = String::new();
        r.push('-');
        r.append(digits.as_str());
        proof {
            assert(r@ =~= signed_decimal(n as int));
        }
        r
    }
}

/// The texts of `parts` with `separator` between them.
pub open spec fn joined(parts: Seq<Seq<char>>, separator: Seq<char>) -> Seq<char>
    decreases parts.len(),
{
    if parts.len() == 0 {
        Seq::empty()
    } else if parts.len() == 1 {
        parts[0]
    } else {
        joined(parts.drop_last(), separator) + separator + parts.last()
    }
}

/// The texts that a list of strings holds.
pub open spec fn texts(parts: Seq<String>) -> Seq<Seq<char>> {
    parts.map_values(|s: String| s@)
}

/// The texts of `parts` with `separator` between them.
pub fn join(parts: &Vec<String>, separator: &str) -> (r: String)
    ensures
        r@ == joined(texts(parts@), separator@),
{
    let mut r = String::new();
    let mut i: usize = 0;
    proof {
        assert(texts(parts@).take(0) =~= Seq::<Seq<char>>::empty());
    }
    while i < parts.len()
        invariant
            i <= parts.len(),
            r@ == joined(texts(parts@).take(i as int), separator@),
        decreases parts.len() - i,
    {
        proof {
            let all = texts(parts@);
            assert(all.take(i + 1).drop_last() =~= all.take(i as int));
            assert(all.take(i + 1).last() == parts@[i as int]@);
        }
        if i > 0 {
            r.append(separator);
        }
        r.append(parts[i].as_str());
        i += 1;
        proof {
            assert(r@ =~= joined(texts(parts@).take(i as int), separator@));
        }
    }
    proof {
        assert(texts(parts@).take(parts@.len() as int) =~= texts(parts@));
    }
    r
}

/// Whether a list of strings holds `wanted`.
pub fn has_text(list: &Vec<String>, wanted: &str) -> (r: bool)
    ensures
        r == texts(list@).contains(wanted@),
{
    let mut i: usize = 0;
    while i < list.len()
        invariant
            i <= list.len(),
            forall|k: int| 0 <= k < i ==> texts(list@)[k] != wanted@,
        decreases list.len() - i,
    {
        if same_text(list[i].as_str(), wanted) {
            proof {
                assert(texts(list@)[i as int] == wanted@);
            }
            return true;
        }
        i += 1;
    }
    false
}

/// `text` without the first occurrence of `c`.
pub open spec fn without_first(text: Seq<char>, c: char) -> Seq<char>
    decreases text.len(),
{
    if text.len() == 0 {
        text
    } else if text[0] == c {
        text.drop_first()
    } else {
        seq![text[0]] + without_first(text.drop_first(), c)
    }
}

/// `text` without the first occurrence of `c`.
pub fn remove_first(text: &str, c: char) -> (r: String)
    ensures
        r@ == without_first(text@, c),
{
    let chars = chars_of(text);
    let mut r = String::new();
    let mut i: usize = 0;
    proof {
        assert(chars@.skip(0) =~= chars@);
        assert(r@ + without_first(chars@.skip(0), c) =~= without_first(text@, c));
    }
    while i < chars.len() && chars[i] != c
        invariant
            i <= chars@.len(),
            chars@ == text@,
            r@ + without_first(chars@.skip(i as int), c) == without_first(text@, c),
        decreases chars.len() - i,
    {
        let ghost before = r@;
        r.push(chars[i]);
        proof {
            let rest = chars@.skip(i as int);
            assert(rest.drop_first() =~= chars@.skip(i + 1));
            assert(rest[0] == chars@[i as int]);
            assert(r@ + without_first(chars@.skip(i + 1), c) =~= before + (seq![rest[0]]
                + without_first(chars@.skip(i + 1), c)));
        }
        i += 1;
    }
    if i < chars.len() {
        let tail = text_of(&chars, i + 1, chars.len());
        proof {
            let rest = chars@.skip(i as int);
            assert(rest[0] == c);
            assert(rest.drop_first() =~= tail@);
        }
        r.append(tail.as_str());
    } else {
        proof {
            assert(chars@.skip(i as int) =~= Seq::<char>::empty());
            assert(r@ + Seq::<char>::empty() =~= r@);
        }
    }
    r
}

/// A line without the carriage return at its end.
pub open spec fn without_return(line: Seq<char>) -> Seq<char> {
    if line.len() > 0 && line.last() == '\r' {
        line.drop_last()
    } else {
        line
    }
}

/// The lines of `text`, after `current` of the line under way has been read. A
/// line feed ends a line, with the carriage return before it if there is one.
/// What follows the last line feed is a line unless it is empty.
pub open spec fn lines_from(current: Seq<char>, text: Seq<char>) -> Seq<Seq<char>>
    decreases text.len(),
{
    if text.len() == 0 {
        if current.len() == 0 {
            Seq::empty()
        } else {
            seq![current]
        }
    } else if text[0] == '\n' {
        seq![without_return(current)] + lines_from(Seq::empty(), text.drop_first())
    } else {
        lines_from(current.push(text[0]), text.drop_first())
    }
}

/// The lines of `text`.
pub open spec fn lines_of(text: Seq<char>) -> Seq<Seq<char>> {
    lines_from(Seq::empty(), text)
}

/// `line` without the carriage return at its end.
fn strip_return(line: &Vec<char>) -> (r: String)
    ensures
        r@ == without_return(line@),
{
    let n = line.len();
    if n > 0 && line[n - 1] == '\r' {
        let r = text_of(line, 0, n - 1);
        proof {
            assert(r@ =~= line@.drop_last());
        }
        r
    } else {
        let r = text_of(line, 0, n);
        proof {
            assert(r@ =~= line@);
        }
        r
    }
}

/// The lines of `text`.
pub fn lines(text: &str) -> (r: Vec<String>)
    ensures
        texts(r@) == lines_of(text@),
{
    let chars = chars_of(text);
    let mut r: Vec<String> = Vec::new();
    let mut current: Vec<char> = Vec::new();
    let mut i: usize = 0;
    proof {
        assert(chars@.skip(0) =~= chars@);
        assert(current@ =~= Seq::<char>::empty());
        assert(texts(r@) + lines_from(current@, chars@.skip(0)) =~= lines_of(text@));
    }
    while i < chars.len()
        invariant
            i <= chars@.len(),
            chars@ == text@,
            texts(r@) + lines_from(current@, chars@.skip(i as int)) == lines_of(text@),
        decreases chars.len() - i,
    {
        let ghost done = texts(r@);
        proof {
            let rest = chars@.skip(i as int);
            assert(rest.drop_first() =~= chars@.skip(i + 1));
            assert(rest[0] == chars@[i as int]);
        }
        if chars[i] == '\n' {
            let line = strip_return(&current);
            proof {
                assert(texts(r@.push(line)) =~= done.push(line@));
                assert(done.push(line@) + lines_from(Seq::empty(), chars@.skip(i + 1)) =~= done + (
                seq![line@] + lines_from(Seq::empty(), chars@.skip(i + 1))));
            }
            r.push(line);
            current = Vec::new();
            proof {
                assert(current@ =~= Seq::<char>::empty());
            }
        } else {
            current.push(chars[i]);
        }
        i += 1;
    }
    proof {
        assert(chars@.skip(i as int) =~= Seq::<char>::empty());
    }
    if current.len() > 0 {
        let line = text_of(&current, 0, current.len());
        proof {
            assert(line@ =~= current@);
            assert(texts(r@.push(line)) =~= texts(r@) + seq![line@]);
        }
        r.push(line);
    } else {
        proof {
            assert(texts(r@) + Seq::<Seq<char>>::empty() =~= texts(r@));
        }
    }
    r
}

/// A result with the text of its error.
pub open spec fn reading<T>(result: Result<T, String>) -> Result<T, Seq<char>> {
    match result {
        Ok(value) => Ok(value),
        Err(message) => Err(message@),
    }
}

/// The number that decimal digits spell.
pub open spec fn spelled(digits: Seq<char>) -> int
    decreases digits.len(),
{
    if digits.len() == 0 {
        0
    } else {
        spelled(digits.drop_last()) * 10 + (digits.last() as int - 48)
    }
}

/// The digits of a number spell it, so that different numbers have different
/// texts. There are only digits in it, and no zero stands in front of others.
pub proof fn digits_spell_the_number(n: nat)
    ensures
        spelled(decimal(n)) == n,
        decimal(n).len() > 0,
        forall|i: int| 0 <= i < decimal(n).len() ==> '0' <= #[trigger] decimal(n)[i] <= '9',
        n > 0 ==> decimal(n)[0] != '0',
    decreases n,
{
    if n < 10 {
        assert(decimal(n).drop_last() =~= Seq::<char>::empty());
        assert(spelled(Seq::<char>::empty()) == 0);
        assert(decimal(n).last() as int == 48 + n);
    } else {
        digits_spell_the_number(n / 10);
        assert(decimal(n).drop_last() =~= decimal(n / 10));
        assert(decimal(n)[0] == decimal(n / 10)[0]);
        assert(decimal(n).last() as int == 48 + n % 10);
    }
}

/// A negative number is its opposite with a minus sign in front.
pub proof fn signs_stand_in_front(n: int)
    ensures
        n >= 0 ==> signed_decimal(n) == decimal(n as nat),
        n < 0 ==> signed_decimal(n)[0] == '-' && signed_decimal(n).skip(1) == decimal(
            (-n) as nat,
        ),
{
    if n < 0 {
        assert(signed_decimal(n).skip(1) =~= decimal((-n) as nat));
    }
}

/// Trimming cuts white space off both ends and nothing else.
pub proof fn trimming_cuts_both_ends(text: Seq<char>)
    ensures
        trimmed(text).len() > 0 ==> !whitespace(trimmed(text)[0]) && !whitespace(
            trimmed(text).last(),
        ),
        exists|from: int, to: int|
            0 <= from <= to <= text.len() && trimmed(text) == #[trigger] text.subrange(from, to)
                && (forall|k: int| 0 <= k < from ==> whitespace(text[k])) && (forall|k: int|
                to <= k < text.len() ==> whitespace(text[k])),
{
    lemma_trim_start(text);
    let rest = trim_start_of(text);
    lemma_trim_end(rest);
    let from = text.len() - rest.len();
    let to = from + trimmed(text).len();
    assert(rest == text.skip(from));
    assert(trimmed(text) == rest.take(trimmed(text).len() as int));
    assert(trimmed(text) =~= text.subrange(from, to));
    assert forall|k: int| to <= k < text.len() implies whitespace(text[k]) by {
        assert(text[k] == rest[k - from]);
    }
}

proof fn lemma_trim_start(text: Seq<char>)
    ensures
        trim_start_of(text).len() <= text.len(),
        trim_start_of(text) == text.skip(text.len() - trim_start_of(text).len()),
        trim_start_of(text).len() > 0 ==> !whitespace(trim_start_of(text)[0]),
        forall|k: int|
            0 <= k < text.len() - trim_start_of(text).len() ==> whitespace(#[trigger] text[k]),
    decreases text.len(),
{
    if text.len() > 0 && whitespace(text[0]) {
        let fewer = text.drop_first();
        lemma_trim_start(fewer);
        assert(fewer.skip(fewer.len() - trim_start_of(fewer).len()) =~= text.skip(
            text.len() - trim_start_of(text).len(),
        ));
        assert forall|k: int| 0 <= k < text.len() - trim_start_of(text).len() implies whitespace(
            #[trigger] text[k],
        ) by {
            if k > 0 {
                assert(text[k] == fewer[k - 1]);
            }
        }
    } else {
        assert(text.skip(0) =~= text);
    }
}

proof fn lemma_trim_end(text: Seq<char>)
    ensures
        trim_end_of(text).len() <= text.len(),
        trim_end_of(text) == text.take(trim_end_of(text).len() as int),
        trim_end_of(text).len() > 0 ==> !whitespace(trim_end_of(text).last()),
        forall|k: int|
            trim_end_of(text).len() <= k < text.len() ==> whitespace(#[trigger] text[k]),
    decreases text.len(),
{
    if text.len() > 0 && whitespace(text.last()) {
        let fewer = text.drop_last();
        lemma_trim_end(fewer);
        assert(fewer.take(trim_end_of(fewer).len() as int) =~= text.take(
            trim_end_of(text).len() as int,
        ));
        assert forall|k: int| trim_end_of(text).len() <= k < text.len() implies whitespace(
            #[trigger] text[k],
        ) by {
            if k < fewer.len() {
                assert(text[k] == fewer[k]);
            }
        }
    } else {
        assert(text.take(text.len() as int) =~= text);
    }
}

/// Parts are joined with one separator between each two of them, and none
/// around them.
pub proof fn separators_stand_between(parts: Seq<Seq<char>>, part: Seq<char>, separator: Seq<char>)
    ensures
        joined(Seq::empty(), separator).len() == 0,
        joined(seq![part], separator) == part,
        parts.len() > 0 ==> joined(parts.push(part), separator) == joined(parts, separator)
            + separator + part,
{
    assert(parts.push(part).drop_last() =~= parts);
}

/// A line feed ends a line, with the carriage return before it if there is one.
/// What follows the last line feed is a line unless it is empty.
pub proof fn line_feeds_end_lines(line: Seq<char>, rest: Seq<char>)
    requires
        forall|k: int| 0 <= k < line.len() ==> line[k] != '\n',
    ensures
        lines_of(Seq::empty()).len() == 0,
        line.len() > 0 ==> lines_of(line) == seq![line],
        lines_of(line + seq!['\n'] + rest) == seq![
            if line.len() > 0 && line.last() == '\r' {
                line.drop_last()
            } else {
                line
            },
        ] + lines_of(rest),
{
    lemma_lines_from(Seq::empty(), line, Seq::empty());
    lemma_lines_from(Seq::empty(), line, seq!['\n'] + rest);
    assert(line + Seq::<char>::empty() =~= line);
    assert(Seq::<char>::empty() + line =~= line);
    assert(line + seq!['\n'] + rest =~= line + (seq!['\n'] + rest));
    assert((seq!['\n'] + rest).drop_first() =~= rest);
    assert((seq!['\n'] + rest)[0] == '\n');
}

proof fn lemma_lines_from(current: Seq<char>, line: Seq<char>, rest: Seq<char>)
    requires
        forall|k: int| 0 <= k < line.len() ==> line[k] != '\n',
    ensures
        lines_from(current, line + rest) == lines_from(current + line, rest),
    decreases line.len(),
{
    if line.len() == 0 {
        assert(line + rest =~= rest);
        assert(current + line =~= current);
    } else {
        let fewer = line.drop_first();
        assert((line + rest).drop_first() =~= fewer + rest);
        assert((line + rest)[0] == line[0]);
        assert forall|k: int| 0 <= k < fewer.len() implies fewer[k] != '\n' by {
            assert(fewer[k] == line[k + 1]);
        }
        lemma_lines_from(current.push(line[0]), fewer, rest);
        assert(current.push(line[0]) + fewer =~= current + line);
    }
}

/// The first occurrence of a character is taken out, and what stands around it
/// stays.
pub proof fn first_occurrences_are_taken_out(before: Seq<char>, c: char, after: Seq<char>)
    requires
        forall|k: int| 0 <= k < before.len() ==> before[k] != c,
    ensures
        without_first(before, c) == before,
        without_first(before + seq![c] + after, c) == before + after,
    decreases before.len(),
{
    let text = before + seq![c] + after;
    if before.len() == 0 {
        assert(text.drop_first() =~= after);
        assert(before + after =~= after);
    } else {
        let fewer = before.drop_first();
        assert forall|k: int| 0 <= k < fewer.len() implies fewer[k] != c by {
            assert(fewer[k] == before[k + 1]);
        }
        first_occurrences_are_taken_out(fewer, c, after);
        assert(text.drop_first() =~= fewer + seq![c] + after);
        assert(seq![before[0]] + fewer =~= before);
        assert(seq![before[0]] + (fewer + after) =~= before + after);
    }
}

/// A text begins with a prefix exactly if it is the prefix and something after
/// it, and ends with a suffix exactly if it is something and then the suffix.
pub proof fn texts_begin_and_end(text: Seq<char>, part: Seq<char>)
    ensures
        begins_with(text, part) <==> exists|rest: Seq<char>| text == #[trigger] (part + rest),
        finishes_with(text, part) <==> exists|rest: Seq<char>| text == #[trigger] (rest + part),
{
    if begins_with(text, part) {
        assert(text =~= part + text.skip(part.len() as int));
    }
    if exists|rest: Seq<char>| text == #[trigger] (part + rest) {
        let rest = choose|rest: Seq<char>| text == #[trigger] (part + rest);
        assert(text.take(part.len() as int) =~= part);
    }
    if finishes_with(text, part) {
        assert(text =~= text.take(text.len() - part.len()) + part);
    }
    if exists|rest: Seq<char>| text == #[trigger] (rest + part) {
        let rest = choose|rest: Seq<char>| text == #[trigger] (rest + part);
        assert(text.skip(text.len() - part.len()) =~= part);
    }
}

/// A pattern stands in a text exactly if the text is something, the pattern,
/// and something else.
pub proof fn patterns_stand_in_texts(
    before: Seq<char>,
    pattern: Seq<char>,
    after: Seq<char>,
    text: Seq<char>,
)
    ensures
        occurs_in(before + pattern + after, pattern),
        occurs_in(text, pattern) ==> exists|at: int|
            0 <= at <= text.len() - pattern.len() && #[trigger] text.subrange(
                at,
                at + pattern.len(),
            ) == pattern,
{
    let whole = before + pattern + after;
    let at = before.len() as int;
    assert(whole.subrange(at, at + pattern.len()) =~= pattern);
    assert(occurs_at(whole, pattern, at));
    if occurs_in(text, pattern) {
        let found = choose|at: int| occurs_at(text, pattern, at);
        assert(occurs_at(text, pattern, found));
        assert(text.subrange(found, found + pattern.len()) == pattern);
    }
}

/// The run of a character at the end is cut off, and nothing before it.
pub proof fn trailing_runs_are_cut_off(text: Seq<char>, c: char)
    ensures
        without_trailing(text, c).len() > 0 ==> without_trailing(text, c).last() != c,
        without_trailing(text, c).len() <= text.len(),
        without_trailing(text, c) == text.take(without_trailing(text, c).len() as int),
        forall|k: int|
            without_trailing(text, c).len() <= k < text.len() ==> #[trigger] text[k] == c,
    decreases text.len(),
{
    if text.len() > 0 && text.last() == c {
        let fewer = text.drop_last();
        trailing_runs_are_cut_off(fewer, c);
        assert(fewer.take(without_trailing(fewer, c).len() as int) =~= text.take(
            without_trailing(text, c).len() as int,
        ));
        assert forall|k: int|
            without_trailing(text, c).len() <= k < text.len() implies #[trigger] text[k] == c by {
            if k < fewer.len() {
                assert(text[k] == fewer[k]);
            }
        }
    } else {
        assert(text.take(text.len() as int) =~= text);
    }
}

/// A result is read with its value, or with the text of its error.
pub proof fn results_are_read_whole<T>(value: T, message: String)
    ensures
        reading(Ok::<T, String>(value)) == Ok::<T, Seq<char>>(value),
        reading(Err::<T, String>(message)) == Err::<T, Seq<char>>(message@),
{
}

} // verus!
