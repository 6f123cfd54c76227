//! Text as sequences of characters: the small vocabulary in which URIs,
//! tokens, headers and messages are described, and the functions that compute
//! it.
use vstd::prelude::*;

verus! {

/// The contents of a list of strings.
pub open spec fn texts(list: Seq<String>) -> Seq<Seq<char>> {
    list.map_values(|s: String| s@)
}

/// The contents of an optional string.
pub open spec fn opt_text(text: Option<String>) -> Option<Seq<char>> {
    match text {
        Some(t) => Some(t@),
        None => None,
    }
}

/// The contents of an optional borrowed string.
pub open spec fn opt_str(text: Option<&str>) -> Option<Seq<char>> {
    match text {
        Some(t) => Some(t@),
        None => None,
    }
}

/// An optional text, borrowed.
pub fn opt_as_str(text: &Option<String>) -> (borrowed: Option<&str>)
    ensures
        opt_str(borrowed) == opt_text(*text),
{
    match text {
        Some(t) => Some(t.as_str()),
        None => None,
    }
}

/// Copies an optional string.
pub fn clone_opt(text: &Option<String>) -> (copy: Option<String>)
    ensures
        copy == *text,
{
    match text {
        Some(t) => Some(t.clone()),
        None => None,
    }
}

/// Copies a list of strings.
pub fn clone_list(list: &Vec<String>) -> (copy: Vec<String>)
    ensures
        copy@ == list@,
{
    let mut copy: Vec<String> = Vec::new();
    for i in 0..list.len()
        invariant
            copy@ == list@.take(i as int),
    {
        copy.push(list[i].clone());
    }
    assert(list@.take(list@.len() as int) == list@);
    copy
}

/// Makes a string of a sequence of characters, with `String::from_iter`.
///
/// Trusted: the string's characters are exactly those of the slice, in order.
#[verifier::external_body]
pub(crate) fn string_of(chars: &[char]) -> (text: String)
    ensures
        text@ == chars@,
{
    String::from_iter(chars.iter())
}

/// The characters of a string, in order.
pub fn chars_of(text: &str) -> (chars: Vec<char>)
    ensures
        chars@ == text@,
{
    let mut chars: Vec<char> = Vec::new();
    for c in it: text.chars()
        invariant
            chars@ == it.seq().take(it.index() as int),
            it.seq() == text@,
    {
        chars.push(c);
    }
    assert(chars@ == text@);
    chars
}

/// Whether two strings hold the same characters.
pub fn same_text(a: &str, b: &str) -> (same: bool)
    ensures
        same == (a@ == b@),
{
    a.to_owned() == b.to_owned()
}

/// Whether two optional strings are equal.
pub fn same_opt(a: Option<&str>, b: Option<&str>) -> (same: bool)
    ensures
        same == (opt_str(a) == opt_str(b)),
{
    match (a, b) {
        (Some(x), Some(y)) => same_text(x, y),
        (None, None) => true,
        _ => false,
    }
}

/// Whether a string is one of a list.
pub fn list_contains(list: &Vec<String>, text: &str) -> (found: bool)
    ensures
        found == texts(list@).contains(text@),
{
    for i in 0..list.len()
        invariant
            forall|j: int| 0 <= j < i ==> #[trigger] list@[j]@ != text@,
    {
        if same_text(list[i].as_str(), text) {
            assert(texts(list@)[i as int] == text@);
            return true;
        }
    }
    assert forall|j: int| 0 <= j < texts(list@).len() implies texts(list@)[j] != text@ by {
        assert(texts(list@)[j] == list@[j]@);
    }
    false
}

/// Joins two strings.
pub fn cat2(a: &str, b: &str) -> (text: String)
    ensures
        text@ == a@ + b@,
{
    let mut text = a.to_owned();
    text.append(b);
    text
}

/// Joins three strings.
pub fn cat3(a: &str, b: &str, c: &str) -> (text: String)
    ensures
        text@ == a@ + b@ + c@,
{
    let mut text = a.to_owned();
    text.append(b);
    text.append(c);
    text
}

/// Joins four strings.
pub fn cat4(a: &str, b: &str, c: &str, d: &str) -> (text: String)
    ensures
        text@ == a@ + b@ + c@ + d@,
{
    let mut text = a.to_owned();
    text.append(b);
    text.append(c);
    text.append(d);
    text
}

/// Joins five strings.
pub fn cat5(a: &str, b: &str, c: &str, d: &str, e: &str) -> (text: String)
    ensures
        text@ == a@ + b@ + c@ + d@ + e@,
{
    let mut text = a.to_owned();
    text.append(b);
    text.append(c);
    text.append(d);
    text.append(e);
    text
}

/// Whether `text` begins with `prefix`.
pub open spec fn has_prefix(text: Seq<char>, prefix: Seq<char>) -> bool {
    prefix.len() <= text.len() && text.take(prefix.len() as int) == prefix
}

/// Whether `text` ends with `suffix`.
pub open spec fn has_suffix(text: Seq<char>, suffix: Seq<char>) -> bool {
    suffix.len() <= text.len() && text.skip(text.len() - suffix.len()) == suffix
}

/// What follows `prefix` in `text`, if `text` begins with it.
pub open spec fn after_prefix(text: Seq<char>, prefix: Seq<char>) -> Option<Seq<char>> {
    if has_prefix(text, prefix) {
        Some(text.skip(prefix.len() as int))
    } else {
        None
    }
}

/// Whether `text` begins with `prefix`.
pub fn starts_with(text: &str, prefix: &str) -> (yes: bool)
    ensures
        yes == has_prefix(text@, prefix@),
{
    let n = prefix.unicode_len();
    if text.unicode_len() < n {
        return false;
    }
    same_text(text.substring_char(0, n), prefix)
}

/// Whether `text` ends with `suffix`.
pub fn ends_with(text: &str, suffix: &str) -> (yes: bool)
    ensures
        yes == has_suffix(text@, suffix@),
{
    let n = suffix.unicode_len();
    let len = text.unicode_len();
    if len < n {
        return false;
    }
    same_text(text.substring_char(len - n, len), suffix)
}

/// What follows `prefix` in `text`, if `text` begins with it.
pub fn strip_prefix<'a>(text: &'a str, prefix: &str) -> (rest: Option<&'a str>)
    ensures
        opt_str(rest) == after_prefix(text@, prefix@),
{
    if starts_with(text, prefix) {
        let rest = text.substring_char(prefix.unicode_len(), text.unicode_len());
        assert(rest@ == text@.skip(prefix@.len() as int));
        Some(rest)
    } else {
        None
    }
}

/// The index of the first `c` in `text`, if it occurs.
pub open spec fn first_index(text: Seq<char>, c: char) -> Option<int>
    decreases text.len(),
{
    if text.len() == 0 {
        None
    } else {
        match first_index(text.drop_last(), c) {
            Some(i) => Some(i),
            None => if text.last() == c {
                Some(text.len() - 1)
            } else {
                None
            },
        }
    }
}

/// The first index is that of the character, and nothing before it is.
pub proof fn lemma_first_index(text: Seq<char>, c: char)
    ensures
        first_index(text, c) matches Some(i) ==> 0 <= i < text.len() && text[i] == c && forall|j: int|
            0 <= j < i ==> text[j] != c,
        first_index(text, c) is None ==> !text.contains(c),
    decreases text.len(),
{
    if text.len() > 0 {
        let head = text.drop_last();
        lemma_first_index(head, c);
        if first_index(head, c) is None {
            assert forall|j: int| 0 <= j < head.len() implies text[j] != c by {
                assert(head.contains(head[j]));
            }
        } else {
            let i = first_index(head, c)->0;
            assert(text[i] == head[i]);
            assert forall|j: int| 0 <= j < i implies text[j] != c by {
                assert(text[j] == head[j]);
            }
        }
    }
}

/// The index at which `c` stands with none before it is the first index.
pub proof fn lemma_first_index_is(text: Seq<char>, c: char, i: int)
    requires
        0 <= i < text.len(),
        text[i] == c,
        forall|j: int| 0 <= j < i ==> text[j] != c,
    ensures
        first_index(text, c) == Some(i),
{
    lemma_first_index(text, c);
}

/// The index of the first `c` in `text`, if it occurs.
pub fn find_char(text: &str, c: char) -> (at: Option<usize>)
    ensures
        match at {
            Some(i) => first_index(text@, c) == Some(i as int) && i < text@.len(),
            None => first_index(text@, c) is None,
        },
{
    let chars = chars_of(text);
    for i in 0..chars.len()
        invariant
            chars@ == text@,
            forall|j: int| 0 <= j < i ==> text@[j] != c,
    {
        if chars[i] == c {
            proof {
                lemma_first_index_is(text@, c, i as int);
            }
            return Some(i);
        }
    }
    proof {
        lemma_first_index(text@, c);
    }
    None
}

/// The parts of `text` between its separators: always at least one, and one
/// more than there are separators.
pub open spec fn split_on(text: Seq<char>, sep: char) -> Seq<Seq<char>>
    decreases text.len(),
{
    if text.len() == 0 {
        seq![Seq::<char>::empty()]
    } else {
        let head = split_on(text.drop_last(), sep);
        if text.last() == sep {
            head.push(Seq::<char>::empty())
        } else {
            head.drop_last().push(head.last().push(text.last()))
        }
    }
}

/// The parts with a separator between each two.
pub open spec fn join_with(parts: Seq<Seq<char>>, sep: char) -> Seq<char>
    decreases parts.len(),
{
    if parts.len() == 0 {
        Seq::empty()
    } else if parts.len() == 1 {
        parts[0]
    } else {
        join_with(parts.drop_last(), sep) + seq![sep] + parts.last()
    }
}

/// There is at least one part, and no part holds a separator.
pub proof fn lemma_split_parts(text: Seq<char>, sep: char)
    ensures
        split_on(text, sep).len() >= 1,
        forall|i: int| 0 <= i < split_on(text, sep).len() ==> !(#[trigger] split_on(text, sep)[i]).contains(sep),
    decreases text.len(),
{
    if text.len() > 0 {
        lemma_split_parts(text.drop_last(), sep);
        let head = split_on(text.drop_last(), sep);
        let parts = split_on(text, sep);
        assert forall|i: int| 0 <= i < parts.len() implies !(#[trigger] parts[i]).contains(sep) by {
            if i < head.len() - 1 {
                assert(parts[i] == head[i]);
            } else if text.last() == sep {
                if i == head.len() - 1 {
                    assert(parts[i] == head[i]);
                }
            } else {
                assert(!head.last().contains(sep)) by {
                    assert(head.last() == head[head.len() - 1]);
                }
                let last = head.last().push(text.last());
                assert(parts[i] == last);
                assert forall|j: int| 0 <= j < last.len() implies last[j] != sep by {
                    if j < head.last().len() {
                        assert(head.last().contains(head.last()[j]));
                    }
                }
            }
        }
    }
}

/// Splitting loses nothing: the parts joined again are the text.
pub proof fn lemma_join_split(text: Seq<char>, sep: char)
    ensures
        join_with(split_on(text, sep), sep) == text,
    decreases text.len(),
{
    if text.len() > 0 {
        let head = split_on(text.drop_last(), sep);
        let parts = split_on(text, sep);
        lemma_join_split(text.drop_last(), sep);
        lemma_split_parts(text.drop_last(), sep);
        if text.last() == sep {
            assert(parts.drop_last() == head);
            assert(join_with(parts, sep) == text);
        } else {
            assert(parts.drop_last() == head.drop_last());
            assert(text.drop_last().push(text.last()) == text);
            if head.len() > 1 {
                assert(join_with(parts, sep) == join_with(head, sep).push(text.last()));
            } else {
                assert(parts[0] == head[0].push(text.last()));
            }
        }
    }
}

/// Text without a separator extends the last part of what stands before it.
pub proof fn lemma_split_append(text: Seq<char>, tail: Seq<char>, sep: char)
    requires
        !tail.contains(sep),
    ensures
        split_on(text + tail, sep) == split_on(text, sep).drop_last().push(
            split_on(text, sep).last() + tail,
        ),
    decreases tail.len(),
{
    lemma_split_parts(text, sep);
    let parts = split_on(text, sep);
    if tail.len() == 0 {
        assert(text + tail == text);
        assert(parts.last() + tail == parts.last());
        assert(parts == parts.drop_last().push(parts.last()));
    } else {
        let shorter = tail.drop_last();
        assert forall|j: int| 0 <= j < shorter.len() implies shorter[j] != sep by {
            assert(tail.contains(tail[j]));
        }
        lemma_split_append(text, shorter, sep);
        assert((text + tail).drop_last() == text + shorter);
        assert(tail.contains(tail.last()));
        let head = split_on(text + shorter, sep);
        assert(head.drop_last() == parts.drop_last());
        assert(parts.last() + tail == (parts.last() + shorter).push(tail.last()));
    }
}

/// Joining loses nothing either: parts that hold no separator come back.
pub proof fn lemma_split_join(parts: Seq<Seq<char>>, sep: char)
    requires
        parts.len() >= 1,
        forall|i: int| 0 <= i < parts.len() ==> !(#[trigger] parts[i]).contains(sep),
    ensures
        split_on(join_with(parts, sep), sep) == parts,
    decreases parts.len(),
{
    if parts.len() == 1 {
        let none = Seq::<char>::empty();
        lemma_split_append(none, parts[0], sep);
        assert(none + parts[0] == parts[0]);
        assert(split_on(parts[0], sep) == parts);
    } else {
        let head = parts.drop_last();
        assert forall|i: int| 0 <= i < head.len() implies !(#[trigger] head[i]).contains(sep) by {
            assert(head[i] == parts[i]);
        }
        lemma_split_join(head, sep);
        let joined = join_with(head, sep);
        let opened = joined + seq![sep];
        assert(opened.drop_last() == joined);
        assert(split_on(opened, sep) == head.push(Seq::<char>::empty()));
        assert(parts.last() == parts[parts.len() - 1]);
        lemma_split_append(opened, parts.last(), sep);
        assert(head.push(Seq::<char>::empty()).drop_last() == head);
        assert(Seq::<char>::empty() + parts.last() == parts.last());
        assert(head.push(parts.last()) == parts);
    }
}

/// Splits `text` at every `sep`.
pub fn split(text: &str, sep: char) -> (parts: Vec<String>)
    ensures
        texts(parts@) == split_on(text@, sep),
        parts@.len() >= 1,
{
    let chars = chars_of(text);
    let mut parts: Vec<String> = Vec::new();
    let mut start: usize = 0;
    assert(texts(parts@).push(text@.subrange(0, 0)) == split_on(text@.take(0), sep)) by {
        assert(text@.subrange(0, 0) == Seq::<char>::empty());
        assert(texts(parts@) == Seq::<Seq<char>>::empty());
    }
    for i in 0..chars.len()
        invariant
            chars@ == text@,
            start <= i,
            texts(parts@).push(text@.subrange(start as int, i as int)) == split_on(
                text@.take(i as int),
                sep,
            ),
    {
        let ghost before = texts(parts@);
        assert(text@.take(i + 1).drop_last() == text@.take(i as int));
        if chars[i] == sep {
            let part = text.substring_char(start, i).to_owned();
            parts.push(part);
            start = i + 1;
            assert(texts(parts@) == before.push(part@));
            assert(text@.subrange(start as int, i + 1) == Seq::<char>::empty());
        } else {
            let ghost head = before.push(text@.subrange(start as int, i as int));
            assert(head.drop_last() == before);
            assert(text@.subrange(start as int, i + 1) == text@.subrange(start as int, i as int).push(
                text@[i as int],
            ));
        }
    }
    let part = text.substring_char(start, chars.len()).to_owned();
    let ghost before = texts(parts@);
    parts.push(part);
    assert(texts(parts@) == before.push(part@));
    assert(text@.take(text@.len() as int) == text@);
    parts
}

/// Joins the parts with `sep` between each two.
pub fn join(parts: &[String], sep: &str) -> (text: String)
    requires
        sep@.len() == 1,
    ensures
        text@ == join_with(texts(parts@), sep@[0]),
{
    let mut text = String::new();
    assert(texts(parts@.take(0)) == Seq::<Seq<char>>::empty());
    for i in 0..parts.len()
        invariant
            sep@.len() == 1,
            text@ == join_with(texts(parts@.take(i as int)), sep@[0]),
    {
        let ghost done = texts(parts@.take(i as int));
        let ghost next = texts(parts@.take(i + 1));
        assert(next.drop_last() == done);
        assert(next.last() == parts@[i as int]@);
        if i > 0 {
            text.append(sep);
            assert(sep@ == seq![sep@[0]]);
        }
        text.append(parts[i].as_str());
        if i == 0 {
            assert(text@ == parts@[0]@);
        }
    }
    assert(parts@.take(parts@.len() as int) == parts@);
    text
}

/// `text` without the `c`s at its end.
pub open spec fn trimmed_end(text: Seq<char>, c: char) -> Seq<char>
    decreases text.len(),
{
    if text.len() > 0 && text.last() == c {
        trimmed_end(text.drop_last(), c)
    } else {
        text
    }
}

/// `text` without the `c`s at its end.
pub fn trim_end_matches<'a>(text: &'a str, c: char) -> (rest: &'a str)
    ensures
        rest@ == trimmed_end(text@, c),
{
    let chars = chars_of(text);
    let mut end: usize = chars.len();
    assert(text@.take(end as int) == text@);
    while end > 0 && chars[end - 1] == c
        invariant
            chars@ == text@,
            end <= chars@.len(),
            trimmed_end(text@.take(end as int), c) == trimmed_end(text@, c),
        decreases end,
    {
        assert(text@.take(end as int).drop_last() == text@.take(end - 1));
        end = end - 1;
    }
    text.substring_char(0, end)
}

/// The characters with the Unicode `White_Space` property.
pub open spec fn is_space(c: char) -> bool {
    let n = c as u32;
    ||| 0x9 <= n <= 0xd
    ||| n == 0x20
    ||| n == 0x85
    ||| n == 0xa0
    ||| n == 0x1680
    ||| 0x2000 <= n <= 0x200a
    ||| n == 0x2028
    ||| n == 0x2029
    ||| n == 0x202f
    ||| n == 0x205f
    ||| n == 0x3000
}

/// Whether `c` has the Unicode `White_Space` property.
pub fn is_whitespace(c: char) -> (yes: bool)
    ensures
        yes == is_space(c),
{
    let n: u32 = c as u32;
    (0x9 <= n && n <= 0xd) || n == 0x20 || n == 0x85 || n == 0xa0 || n == 0x1680 || (0x2000 <= n
        && n <= 0x200a) || n == 0x2028 || n == 0x2029 || n == 0x202f || n == 0x205f || n == 0x3000
}

/// The words of `text`: its longest runs of characters that are not spaces.
///
/// The second part is the run that reaches the end of the text, possibly empty.
pub open spec fn words_and_tail(text: Seq<char>) -> (Seq<Seq<char>>, Seq<char>)
    decreases text.len(),
{
    if text.len() == 0 {
        (Seq::empty(), Seq::empty())
    } else {
        let (words, tail) = words_and_tail(text.drop_last());
        if !is_space(text.last()) {
            (words, tail.push(text.last()))
        } else if tail.len() > 0 {
            (words.push(tail), Seq::empty())
        } else {
            (words, tail)
        }
    }
}

/// The words of `text`: its longest runs of characters that are not spaces.
pub open spec fn words_of(text: Seq<char>) -> Seq<Seq<char>> {
    let (words, tail) = words_and_tail(text);
    if tail.len() > 0 {
        words.push(tail)
    } else {
        words
    }
}

/// The words of `text`, in order.
pub fn split_whitespace(text: &str) -> (words: Vec<String>)
    ensures
        texts(words@) == words_of(text@),
{
    let chars = chars_of(text);
    let mut words: Vec<String> = Vec::new();
    let mut start: usize = 0;
    assert(texts(words@) == Seq::<Seq<char>>::empty());
    for i in 0..chars.len()
        invariant
            chars@ == text@,
            start <= i,
            words_and_tail(text@.take(i as int)) == (
                texts(words@),
                text@.subrange(start as int, i as int),
            ),
    {
        let ghost before = texts(words@);
        assert(text@.take(i + 1).drop_last() == text@.take(i as int));
        if !is_whitespace(chars[i]) {
            assert(text@.subrange(start as int, i + 1) == text@.subrange(start as int, i as int).push(
                text@[i as int],
            ));
        } else {
            if start < i {
                let word = text.substring_char(start, i).to_owned();
                words.push(word);
                assert(texts(words@) == before.push(word@));
            }
            start = i + 1;
            assert(text@.subrange(start as int, i + 1) == Seq::<char>::empty());
        }
    }
    assert(text@.take(text@.len() as int) == text@);
    if start < chars.len() {
        let ghost before = texts(words@);
        let word = text.substring_char(start, chars.len()).to_owned();
        words.push(word);
        assert(texts(words@) == before.push(word@));
    }
    words
}

/// `text` without the spaces at its end.
pub open spec fn trimmed_right(text: Seq<char>) -> Seq<char>
    decreases text.len(),
{
    if text.len() > 0 && is_space(text.last()) {
        trimmed_right(text.drop_last())
    } else {
        text
    }
}

/// `text` without the spaces at its start.
pub open spec fn trimmed_left(text: Seq<char>) -> Seq<char>
    decreases text.len(),
{
    if text.len() > 0 && is_space(text[0]) {
        trimmed_left(text.skip(1))
    } else {
        text
    }
}

/// `text` without the spaces at either end.
pub open spec fn trimmed(text: Seq<char>) -> Seq<char> {
    trimmed_right(trimmed_left(text))
}

/// `text` without the spaces at either end.
pub fn trim<'a>(text: &'a str) -> (rest: &'a str)
    ensures
        rest@ == trimmed(text@),
{
    let chars = chars_of(text);
    let mut start: usize = 0;
    assert(text@.skip(0) == text@);
    while start < chars.len() && is_whitespace(chars[start])
        invariant
            chars@ == text@,
            start <= chars@.len(),
            trimmed_left(text@.skip(start as int)) == trimmed_left(text@),
        decreases chars@.len() - start,
    {
        assert(text@.skip(start as int).skip(1) == text@.skip(start + 1));
        start = start + 1;
    }
    let mut end: usize = chars.len();
    let ghost left = trimmed_left(text@);
    assert(text@.subrange(start as int, end as int) == text@.skip(start as int));
    while end > start && is_whitespace(chars[end - 1])
        invariant
            chars@ == text@,
            start <= end <= chars@.len(),
            trimmed_right(text@.subrange(start as int, end as int)) == trimmed_right(left),
        decreases end,
    {
        assert(text@.subrange(start as int, end as int).drop_last() == text@.subrange(
            start as int,
            end - 1,
        ));
        end = end - 1;
    }
    text.substring_char(start, end)
}

/// The digit character of a number below ten.
pub open spec fn digit_char(n: nat) -> char {
    (('0' as u32) + n) as char
}

/// The decimal digits of a number, with no leading zero.
pub open spec fn decimal_of(n: nat) -> Seq<char>
    decreases n,
{
    if n < 10 {
        seq![digit_char(n)]
    } else {
        decimal_of(n / 10).push(digit_char(n % 10))
    }
}

/// The digit character of a number below sixteen, in lower case.
pub open spec fn hex_char(n: nat) -> char {
    if n < 10 {
        digit_char(n)
    } else {
        (('a' as u32) + n - 10) as char
    }
}

fn hex_digit(n: u8) -> (c: char)
    requires
        n < 16,
    ensures
        c == hex_char(n as nat),
{
    if n < 10 {
        (48u8 + n) as char
    } else {
        (97u8 + (n - 10)) as char
    }
}

/// Writes a number in decimal.
pub fn decimal(n: u64) -> (text: String)
    ensures
        text@ == decimal_of(n as nat),
    decreases n,
{
    let digit: char = (48u8 + (n % 10) as u8) as char;
    let last = vec![digit];
    assert(digit == digit_char((n % 10) as nat));
    if n < 10 {
        string_of(last.as_slice())
    } else {
        let mut text = decimal(n / 10);
        let tail = string_of(last.as_slice());
        text.append(tail.as_str());
        text
    }
}

/// Two lower-case hexadecimal digits for each byte.
pub open spec fn hex_of(bytes: Seq<u8>) -> Seq<char>
    decreases bytes.len(),
{
    if bytes.len() == 0 {
        Seq::empty()
    } else {
        hex_of(bytes.drop_last()).push(hex_char(bytes.last() as nat / 16)).push(
            hex_char(bytes.last() as nat % 16),
        )
    }
}

/// Writes bytes in lower-case hexadecimal.
pub fn hex(bytes: &[u8]) -> (text: String)
    ensures
        text@ == hex_of(bytes@),
{
    let mut digits: Vec<char> = Vec::new();
    for i in 0..bytes.len()
        invariant
            digits@ == hex_of(bytes@.take(i as int)),
    {
        assert(bytes@.take(i + 1).drop_last() == bytes@.take(i as int));
        digits.push(hex_digit(bytes[i] / 16));
        digits.push(hex_digit(bytes[i] % 16));
    }
    assert(bytes@.take(bytes@.len() as int) == bytes@);
    string_of(digits.as_slice())
}

/// Whether `a` comes before `b` in the lexicographic order of bytes.
pub open spec fn bytes_before(a: Seq<u8>, b: Seq<u8>) -> bool
    decreases a.len(),
{
    if b.len() == 0 {
        false
    } else if a.len() == 0 {
        true
    } else if a[0] != b[0] {
        a[0] < b[0]
    } else {
        bytes_before(a.skip(1), b.skip(1))
    }
}

/// Whether `a` comes before `b` in the order of their UTF-8 bytes.
pub open spec fn text_before(a: Seq<char>, b: Seq<char>) -> bool {
    bytes_before(vstd::utf8::encode_utf8(a), vstd::utf8::encode_utf8(b))
}

/// Whether `a` comes before `b` in the lexicographic order of bytes.
pub fn bytes_less(a: &[u8], b: &[u8]) -> (yes: bool)
    ensures
        yes == bytes_before(a@, b@),
{
    let mut i: usize = 0;
    assert(a@.skip(0) == a@);
    assert(b@.skip(0) == b@);
    while i < a.len() && i < b.len() && a[i] == b[i]
        invariant
            i <= a@.len(),
            i <= b@.len(),
            bytes_before(a@.skip(i as int), b@.skip(i as int)) == bytes_before(a@, b@),
        decreases a@.len() - i,
    {
        assert(a@.skip(i as int).skip(1) == a@.skip(i + 1));
        assert(b@.skip(i as int).skip(1) == b@.skip(i + 1));
        i = i + 1;
    }
    if i == b.len() {
        false
    } else if i == a.len() {
        true
    } else {
        a[i] < b[i]
    }
}

/// Whether `a` comes before `b` in the order of their UTF-8 bytes.
pub fn text_less(a: &str, b: &str) -> (yes: bool)
    ensures
        yes == text_before(a@, b@),
{
    bytes_less(a.as_bytes(), b.as_bytes())
}

/// Nothing comes before itself.
pub proof fn lemma_bytes_irreflexive(a: Seq<u8>)
    ensures
        !bytes_before(a, a),
    decreases a.len(),
{
    if a.len() > 0 {
        lemma_bytes_irreflexive(a.skip(1));
    }
}

/// Of two different sequences of bytes, exactly one comes first.
pub proof fn lemma_bytes_total(a: Seq<u8>, b: Seq<u8>)
    ensures
        bytes_before(a, b) || bytes_before(b, a) || a == b,
        !(bytes_before(a, b) && bytes_before(b, a)),
    decreases a.len(),
{
    if a.len() > 0 && b.len() > 0 {
        lemma_bytes_total(a.skip(1), b.skip(1));
        if a[0] == b[0] && a.skip(1) == b.skip(1) {
            assert(a == seq![a[0]] + a.skip(1));
            assert(b == seq![b[0]] + b.skip(1));
        }
    }
}

/// The order of bytes is transitive.
pub proof fn lemma_bytes_transitive(a: Seq<u8>, b: Seq<u8>, c: Seq<u8>)
    requires
        bytes_before(a, b),
        bytes_before(b, c),
    ensures
        bytes_before(a, c),
    decreases a.len(),
{
    if a.len() > 0 && a[0] == b[0] && b[0] == c[0] {
        lemma_bytes_transitive(a.skip(1), b.skip(1), c.skip(1));
    }
}

/// Two different texts have different UTF-8 bytes, so one of them comes first.
pub proof fn lemma_text_total(a: Seq<char>, b: Seq<char>)
    ensures
        text_before(a, b) || text_before(b, a) || a == b,
        !(text_before(a, b) && text_before(b, a)),
        !text_before(a, a),
{
    vstd::utf8::encode_utf8_decode_utf8(a);
    vstd::utf8::encode_utf8_decode_utf8(b);
    lemma_bytes_total(vstd::utf8::encode_utf8(a), vstd::utf8::encode_utf8(b));
    lemma_bytes_irreflexive(vstd::utf8::encode_utf8(a));
}

/// Whether each text comes before all that follow it.
pub open spec fn texts_ascend(list: Seq<Seq<char>>) -> bool {
    forall|i: int, j: int| 0 <= i < j < list.len() ==> text_before(#[trigger] list[i], #[trigger] list[j])
}

/// Puts a text in its place in an ascending list, if it is not there.
pub fn place(list: &mut Vec<String>, item: &str)
    requires
        texts_ascend(texts(old(list)@)),
    ensures
        texts_ascend(texts(final(list)@)),
        forall|t: Seq<char>| #[trigger]
            texts(final(list)@).contains(t) <==> (texts(old(list)@).contains(t) || t == item@),
{
    let ghost before = texts(list@);
    let n = list.len();
    let mut at: usize = 0;
    while at < n && text_less(list[at].as_str(), item)
        invariant
            at <= n,
            n == list@.len(),
            before == texts(list@),
            forall|j: int| 0 <= j < at ==> text_before(#[trigger] before[j], item@),
        decreases n - at,
    {
        assert(before[at as int] == list@[at as int]@);
        at = at + 1;
    }
    if at < n && same_text(list[at].as_str(), item) {
        assert(before[at as int] == item@);
    } else {
        list.insert(at, item.to_owned());
        let ghost after = texts(list@);
        assert(after =~= before.insert(at as int, item@));
        proof {
            if at < n {
                lemma_text_total(before[at as int], item@);
            }
            assert forall|i: int, j: int| 0 <= i < j < after.len() implies text_before(
                #[trigger] after[i],
                #[trigger] after[j],
            ) by {
                if i == at {
                    assert(after[j] == before[j - 1]);
                    if j - 1 > at {
                        lemma_bytes_transitive(
                            vstd::utf8::encode_utf8(item@),
                            vstd::utf8::encode_utf8(before[at as int]),
                            vstd::utf8::encode_utf8(before[j - 1]),
                        );
                    }
                } else if j == at {
                    assert(after[i] == before[i]);
                } else {
                    let x = if i < at { i } else { i - 1 };
                    let y = if j < at { j } else { j - 1 };
                    assert(after[i] == before[x]);
                    assert(after[j] == before[y]);
                }
            }
            assert forall|t: Seq<char>| #[trigger]
                after.contains(t) <==> (before.contains(t) || t == item@) by {
                if after.contains(t) {
                    let k = choose|k: int| 0 <= k < after.len() && after[k] == t;
                    if k < at {
                        assert(before[k] == t);
                    } else if k > at {
                        assert(before[k - 1] == t);
                    }
                }
                if before.contains(t) {
                    let k = choose|k: int| 0 <= k < before.len() && before[k] == t;
                    if k < at {
                        assert(after[k] == t);
                    } else {
                        assert(after[k + 1] == t);
                    }
                }
                if t == item@ {
                    assert(after[at as int] == t);
                }
            }
        }
    }
}

/// Two ascending lists of the same texts are the same.
pub proof fn lemma_one_ascending_list(a: Seq<Seq<char>>, b: Seq<Seq<char>>)
    requires
        texts_ascend(a),
        texts_ascend(b),
        forall|t: Seq<char>| #[trigger] a.contains(t) <==> b.contains(t),
    ensures
        a == b,
    decreases a.len(),
{
    if a.len() == 0 {
        if b.len() > 0 {
            assert(b.contains(b[0]));
            assert(a.contains(b[0]));
        }
        assert(a =~= b);
    } else {
        assert(a.contains(a[0]));
        assert(b.contains(a[0]));
        let k = choose|k: int| 0 <= k < b.len() && b[k] == a[0];
        assert(b.contains(b[0]));
        assert(a.contains(b[0]));
        let m = choose|m: int| 0 <= m < a.len() && a[m] == b[0];
        if k > 0 && m > 0 {
            lemma_text_total(a[0], b[0]);
        }
        lemma_text_total(a[0], a[0]);
        assert(a[0] == b[0]);
        let rest_a = a.skip(1);
        let rest_b = b.skip(1);
        assert forall|t: Seq<char>| #[trigger] rest_a.contains(t) <==> rest_b.contains(t) by {
            if rest_a.contains(t) {
                let i = choose|i: int| 0 <= i < rest_a.len() && rest_a[i] == t;
                assert(a[i + 1] == t);
                assert(a.contains(t));
                lemma_text_total(t, a[0]);
                let j = choose|j: int| 0 <= j < b.len() && b[j] == t;
                assert(j > 0);
                assert(rest_b[j - 1] == t);
            }
            if rest_b.contains(t) {
                let i = choose|i: int| 0 <= i < rest_b.len() && rest_b[i] == t;
                assert(b[i + 1] == t);
                assert(b.contains(t));
                assert(a.contains(t));
                lemma_text_total(t, b[0]);
                let j = choose|j: int| 0 <= j < a.len() && a[j] == t;
                assert(j > 0);
                assert(rest_a[j - 1] == t);
            }
        }
        lemma_one_ascending_list(rest_a, rest_b);
        assert(a =~= seq![a[0]] + rest_a);
        assert(b =~= seq![b[0]] + rest_b);
    }
}

/// What stands before and after the first `c`, if it occurs.
pub open spec fn parted(text: Seq<char>, c: char) -> Option<(Seq<char>, Seq<char>)> {
    match first_index(text, c) {
        Some(i) => Some((text.take(i), text.skip(i + 1))),
        None => None,
    }
}

/// What two optional parts are.
pub open spec fn opt_parts(parts: Option<(&str, &str)>) -> Option<(Seq<char>, Seq<char>)> {
    match parts {
        Some((a, b)) => Some((a@, b@)),
        None => None,
    }
}

/// Parts `text` at the first `c`.
pub fn split_once<'a>(text: &'a str, c: char) -> (parts: Option<(&'a str, &'a str)>)
    ensures
        opt_parts(parts) == parted(text@, c),
{
    let n = text.unicode_len();
    match find_char(text, c) {
        Some(i) => {
            let head = text.substring_char(0, i);
            let tail = text.substring_char(i + 1, n);
            assert(head@ =~= text@.take(i as int));
            assert(tail@ =~= text@.skip(i + 1));
            Some((head, tail))
        },
        None => None,
    }
}

/// The index of the last `c` in `text`, if it occurs.
pub open spec fn last_index(text: Seq<char>, c: char) -> Option<int>
    decreases text.len(),
{
    if text.len() == 0 {
        None
    } else if text.last() == c {
        Some(text.len() - 1)
    } else {
        last_index(text.drop_last(), c)
    }
}

/// What stands before and after the last `c`, if it occurs.
pub open spec fn parted_last(text: Seq<char>, c: char) -> Option<(Seq<char>, Seq<char>)> {
    match last_index(text, c) {
        Some(i) => Some((text.take(i), text.skip(i + 1))),
        None => None,
    }
}

/// Parts `text` at the last `c`.
pub fn rsplit_once<'a>(text: &'a str, c: char) -> (parts: Option<(&'a str, &'a str)>)
    ensures
        opt_parts(parts) == parted_last(text@, c),
{
    let chars = chars_of(text);
    let mut end: usize = chars.len();
    assert(text@.take(end as int) =~= text@);
    while end > 0
        invariant
            chars@ == text@,
            end <= chars@.len(),
            last_index(text@.take(end as int), c) == last_index(text@, c),
        decreases end,
    {
        assert(text@.take(end as int).drop_last() =~= text@.take(end - 1));
        if chars[end - 1] == c {
            let head = text.substring_char(0, end - 1);
            let tail = text.substring_char(end, chars.len());
            assert(head@ =~= text@.take(end - 1));
            assert(tail@ =~= text@.skip(end as int));
            return Some((head, tail));
        }
        end = end - 1;
    }
    None
}

/// `text` without the `c`s at its start.
pub open spec fn trimmed_start(text: Seq<char>, c: char) -> Seq<char>
    decreases text.len(),
{
    if text.len() > 0 && text[0] == c {
        trimmed_start(text.skip(1), c)
    } else {
        text
    }
}

/// `text` without the `c`s at either end.
pub fn trim_matches<'a>(text: &'a str, c: char) -> (rest: &'a str)
    ensures
        rest@ == trimmed_end(trimmed_start(text@, c), c),
{
    let chars = chars_of(text);
    let mut start: usize = 0;
    assert(text@.skip(0) =~= text@);
    while start < chars.len() && chars[start] == c
        invariant
            chars@ == text@,
            start <= chars@.len(),
            trimmed_start(text@.skip(start as int), c) == trimmed_start(text@, c),
        decreases chars@.len() - start,
    {
        assert(text@.skip(start as int).skip(1) =~= text@.skip(start + 1));
        start = start + 1;
    }
    let rest = text.substring_char(start, chars.len());
    assert(rest@ =~= text@.skip(start as int));
    trim_end_matches(rest, c)
}

/// `text` with one character in place of another.
pub open spec fn replaced(text: Seq<char>, from: char, to: char) -> Seq<char> {
    text.map_values(
        |c: char|
            if c == from {
                to
            } else {
                c
            },
    )
}

/// `text` with one character in place of another.
pub fn replace_char(text: &str, from: char, to: char) -> (out: String)
    ensures
        out@ == replaced(text@, from, to),
{
    let chars = chars_of(text);
    let mut out: Vec<char> = Vec::new();
    for i in 0..chars.len()
        invariant
            chars@ == text@,
            out@.len() == i,
            forall|j: int|
                0 <= j < i ==> #[trigger] out@[j] == (if text@[j] == from {
                    to
                } else {
                    text@[j]
                }),
    {
        if chars[i] == from {
            out.push(to);
        } else {
            out.push(chars[i]);
        }
    }
    assert(out@ =~= replaced(text@, from, to));
    string_of(out.as_slice())
}

/// Parting a text at a character gives back what stands before its first
/// occurrence and what stands behind it, and nothing where it does not occur.
pub proof fn law_parted_at_the_first(text: Seq<char>, c: char)
    ensures
        parted(text, c) is None <==> !text.contains(c),
        parted(text, c) matches Some((a, b)) ==> text == a + seq![c] + b && !a.contains(c),
{
    lemma_first_index(text, c);
    match first_index(text, c) {
        Some(i) => {
            assert(text =~= text.take(i) + seq![c] + text.skip(i + 1));
            assert(text[i] == c);
        },
        None => {},
    }
}

/// Parting a text at the last occurrence of a character gives back what stands
/// before it and what stands behind it.
pub proof fn law_parted_at_the_last(text: Seq<char>, c: char)
    ensures
        parted_last(text, c) is None <==> !text.contains(c),
        parted_last(text, c) matches Some((a, b)) ==> text == a + seq![c] + b && !b.contains(c),
    decreases text.len(),
{
    if text.len() > 0 {
        if text.last() == c {
            assert(text =~= text.take(text.len() - 1) + seq![c] + text.skip(text.len() as int));
            assert(text[text.len() - 1] == c);
        } else {
            let shorter = text.drop_last();
            law_parted_at_the_last(shorter, c);
            assert(text =~= shorter.push(text.last()));
            match last_index(shorter, c) {
                Some(i) => {
                    lemma_last_index_within(shorter, c);
                    assert(text =~= text.take(i) + seq![c] + text.skip(i + 1)) by {
                        assert(shorter[i] == c);
                    }
                    assert(shorter.skip(i + 1) =~= text.skip(i + 1).drop_last());
                    let rest = text.skip(i + 1);
                    assert(!rest.contains(c)) by {
                        if rest.contains(c) {
                            let k = choose|k: int| 0 <= k < rest.len() && rest[k] == c;
                            assert(shorter.skip(i + 1)[k] == c);
                        }
                    }
                    assert(text[i] == c);
                },
                None => {
                    if text.contains(c) {
                        let k = choose|k: int| 0 <= k < text.len() && text[k] == c;
                        assert(shorter[k] == c);
                    }
                },
            }
        }
    }
}

proof fn lemma_last_index_within(text: Seq<char>, c: char)
    ensures
        last_index(text, c) matches Some(i) ==> 0 <= i < text.len() && text[i] == c,
    decreases text.len(),
{
    if text.len() > 0 && text.last() != c {
        lemma_last_index_within(text.drop_last(), c);
    }
}

/// Trimming a character off the end leaves a beginning of the text that does not
/// end with it, and takes nothing else off.
pub proof fn law_trimmed_end_takes_just_the_end(text: Seq<char>, c: char)
    ensures
        has_prefix(text, trimmed_end(text, c)),
        forall|i: int| trimmed_end(text, c).len() <= i < text.len() ==> text[i] == c,
        trimmed_end(text, c).len() > 0 ==> trimmed_end(text, c).last() != c,
    decreases text.len(),
{
    if text.len() > 0 && text.last() == c {
        let shorter = text.drop_last();
        law_trimmed_end_takes_just_the_end(shorter, c);
        assert forall|i: int| trimmed_end(text, c).len() <= i < text.len() implies text[i] == c by {
            if i < shorter.len() {
                assert(shorter[i] == c);
            }
        }
        let n = trimmed_end(text, c).len() as int;
        assert(text.take(n) =~= shorter.take(n));
    } else {
        assert(text.take(text.len() as int) =~= text);
    }
}

/// Trimming a character off the start leaves an end of the text that does not
/// start with it, and takes nothing else off.
pub proof fn law_trimmed_start_takes_just_the_start(text: Seq<char>, c: char)
    ensures
        has_suffix(text, trimmed_start(text, c)),
        forall|i: int| 0 <= i < text.len() - trimmed_start(text, c).len() ==> text[i] == c,
        trimmed_start(text, c).len() > 0 ==> trimmed_start(text, c)[0] != c,
    decreases text.len(),
{
    if text.len() > 0 && text[0] == c {
        let shorter = text.skip(1);
        law_trimmed_start_takes_just_the_start(shorter, c);
        let n = trimmed_start(text, c).len() as int;
        assert forall|i: int| 0 <= i < text.len() - n implies text[i] == c by {
            if i > 0 {
                assert(shorter[i - 1] == c);
            }
        }
        assert(text.skip(text.len() - n) =~= shorter.skip(shorter.len() - n));
    } else {
        assert(text.skip(0) =~= text);
    }
}

proof fn lemma_trimmed_right(text: Seq<char>)
    ensures
        has_prefix(text, trimmed_right(text)),
        forall|i: int| trimmed_right(text).len() <= i < text.len() ==> is_space(text[i]),
        trimmed_right(text).len() > 0 ==> !is_space(trimmed_right(text).last()),
    decreases text.len(),
{
    if text.len() > 0 && is_space(text.last()) {
        let shorter = text.drop_last();
        lemma_trimmed_right(shorter);
        assert forall|i: int| trimmed_right(text).len() <= i < text.len() implies is_space(text[i]) by {
            if i < shorter.len() {
                assert(is_space(shorter[i]));
            }
        }
        let n = trimmed_right(text).len() as int;
        assert(text.take(n) =~= shorter.take(n));
    } else {
        assert(text.take(text.len() as int) =~= text);
    }
}

proof fn lemma_trimmed_left(text: Seq<char>)
    ensures
        has_suffix(text, trimmed_left(text)),
        forall|i: int| 0 <= i < text.len() - trimmed_left(text).len() ==> is_space(text[i]),
        trimmed_left(text).len() > 0 ==> !is_space(trimmed_left(text)[0]),
    decreases text.len(),
{
    if text.len() > 0 && is_space(text[0]) {
        let shorter = text.skip(1);
        lemma_trimmed_left(shorter);
        let n = trimmed_left(text).len() as int;
        assert forall|i: int| 0 <= i < text.len() - n implies is_space(text[i]) by {
            if i > 0 {
                assert(is_space(shorter[i - 1]));
            }
        }
        assert(text.skip(text.len() - n) =~= shorter.skip(shorter.len() - n));
    } else {
        assert(text.skip(0) =~= text);
    }
}

/// Whether a text is whitespace throughout.
pub open spec fn is_blank(text: Seq<char>) -> bool {
    forall|i: int| 0 <= i < text.len() ==> is_space(#[trigger] text[i])
}

/// A trimmed text is what stands between the whitespace at both ends: it starts
/// and ends with something else, and nothing but whitespace was taken off.
pub proof fn law_trimmed_stands_between_whitespace(text: Seq<char>)
    ensures
        exists|before: Seq<char>, after: Seq<char>|
            #![trigger is_blank(before), is_blank(after)]
            is_blank(before) && is_blank(after) && text == before + trimmed(text) + after,
        trimmed(text).len() > 0 ==> !is_space(trimmed(text)[0]) && !is_space(trimmed(text).last()),
{
    let left = trimmed_left(text);
    lemma_trimmed_left(text);
    lemma_trimmed_right(left);
    let n = text.len() - left.len();
    let before = text.take(n);
    let after = left.skip(trimmed(text).len() as int);
    assert(left =~= trimmed(text) + after) by {
        assert(left.take(trimmed(text).len() as int) =~= trimmed(text));
    }
    assert(text =~= before + left);
    assert(text =~= before + trimmed(text) + after);
    assert(is_blank(before));
    assert(is_blank(after));
    if trimmed(text).len() > 0 {
        assert(trimmed(text)[0] == left[0]);
    }
}

/// Whether a text is a word: not empty, and without whitespace.
pub open spec fn is_word(text: Seq<char>) -> bool {
    text.len() > 0 && forall|i: int| 0 <= i < text.len() ==> !is_space(#[trigger] text[i])
}

proof fn lemma_words_and_tail(text: Seq<char>)
    ensures
        forall|i: int| 0 <= i < words_and_tail(text).0.len() ==> is_word(#[trigger] words_and_tail(text).0[i]),
        words_and_tail(text).1.len() > 0 ==> is_word(words_and_tail(text).1),
    decreases text.len(),
{
    if text.len() > 0 {
        lemma_words_and_tail(text.drop_last());
    }
}

proof fn lemma_word_at_the_end(text: Seq<char>, more: Seq<char>)
    requires
        forall|i: int| 0 <= i < more.len() ==> !is_space(#[trigger] more[i]),
    ensures
        words_and_tail(text + more) == (words_and_tail(text).0, words_and_tail(text).1 + more),
    decreases more.len(),
{
    if more.len() == 0 {
        assert(text + more =~= text);
        assert(words_and_tail(text).1 + more =~= words_and_tail(text).1);
    } else {
        lemma_word_at_the_end(text, more.drop_last());
        assert((text + more).drop_last() =~= text + more.drop_last());
        assert((text + more).last() == more.last());
        assert((words_and_tail(text).1 + more.drop_last()).push(more.last()) =~= words_and_tail(text).1
            + more);
    }
}

/// What a text is split into at whitespace are words; and words with one space
/// after the other are split into those words, so that none is lost, joined to
/// another or cut.
pub proof fn law_words_are_told_apart(text: Seq<char>, words: Seq<Seq<char>>)
    requires
        forall|i: int| 0 <= i < words.len() ==> is_word(#[trigger] words[i]),
    ensures
        forall|i: int| 0 <= i < words_of(text).len() ==> is_word(#[trigger] words_of(text)[i]),
        words_of(join_with(words, ' ')) == words,
    decreases words.len(),
{
    lemma_words_and_tail(text);
    if words.len() == 0 {
        assert(words_of(join_with(words, ' ')) =~= words);
    } else if words.len() == 1 {
        assert(Seq::<char>::empty() + words[0] =~= words[0]);
        lemma_word_at_the_end(Seq::empty(), words[0]);
        assert(words_of(join_with(words, ' ')) =~= words);
    } else {
        let head = words.drop_last();
        law_words_are_told_apart(text, head);
        let start = join_with(head, ' ') + seq![' '];
        assert(start.drop_last() =~= join_with(head, ' '));
        lemma_words_and_tail(join_with(head, ' '));
        assert(is_space(' '));
        assert(words_and_tail(start).0 == head && words_and_tail(start).1.len() == 0);
        lemma_word_at_the_end(start, words.last());
        assert(words_and_tail(start).1 + words.last() =~= words.last());
        assert(words_of(join_with(words, ' ')) =~= words);
    }
}

/// The number that decimal digits write.
pub open spec fn decimal_value(digits: Seq<char>) -> int
    decreases digits.len(),
{
    if digits.len() == 0 {
        0
    } else {
        10 * decimal_value(digits.drop_last()) + (digits.last() as int - '0' as int)
    }
}

/// A number's decimal digits write that number, start with no zero but that of
/// zero itself, and are digits.
pub proof fn law_decimal_reads_back(n: nat)
    ensures
        decimal_value(decimal_of(n)) == n,
        decimal_of(n).len() > 0,
        decimal_of(n)[0] == '0' ==> n == 0 && decimal_of(n).len() == 1,
        forall|i: int| 0 <= i < decimal_of(n).len() ==> '0' <= #[trigger] decimal_of(n)[i] <= '9',
    decreases n,
{
    if n < 10 {
        reveal_with_fuel(decimal_value, 2);
        assert(seq![digit_char(n)].drop_last() =~= Seq::empty());
    } else {
        law_decimal_reads_back(n / 10);
        let head = decimal_of(n / 10);
        assert(decimal_of(n).drop_last() =~= head);
        assert(decimal_of(n)[0] == head[0]);
        assert(n == 10 * (n / 10) + n % 10);
    }
}

/// The hexadecimal text of bytes has two digits for each byte, the higher half
/// first.
pub proof fn law_hex_has_two_digits_a_byte(bytes: Seq<u8>)
    ensures
        hex_of(bytes).len() == 2 * bytes.len(),
        forall|i: int|
            0 <= i < bytes.len() ==> hex_of(bytes)[2 * i] == "0123456789abcdef"@[(#[trigger] bytes[i]) as int
                / 16] && hex_of(bytes)[2 * i + 1] == "0123456789abcdef"@[bytes[i] as int % 16],
    decreases bytes.len(),
{
    reveal_strlit("0123456789abcdef");
    if bytes.len() > 0 {
        let shorter = bytes.drop_last();
        law_hex_has_two_digits_a_byte(shorter);
        assert forall|i: int| 0 <= i < bytes.len() implies hex_of(bytes)[2 * i]
            == "0123456789abcdef"@[(#[trigger] bytes[i]) as int / 16] && hex_of(bytes)[2 * i + 1]
            == "0123456789abcdef"@[bytes[i] as int % 16] by {
            if i < shorter.len() {
                assert(shorter[i] == bytes[i]);
                assert(hex_of(bytes)[2 * i] == hex_of(shorter)[2 * i]);
            } else {
                lemma_hex_char(bytes[i] as nat / 16);
                lemma_hex_char(bytes[i] as nat % 16);
            }
        }
    }
}

proof fn lemma_hex_char(n: nat)
    requires
        n < 16,
    ensures
        hex_char(n) == "0123456789abcdef"@[n as int],
{
    reveal_strlit("0123456789abcdef");
    assert("0123456789abcdef"@.len() == 16);
    if n == 0 {} else if n == 1 {} else if n == 2 {} else if n == 3 {} else if n == 4 {} else if n == 5 {} else if n
        == 6 {} else if n == 7 {} else if n == 8 {} else if n == 9 {} else if n == 10 {} else if n == 11 {} else if n
        == 12 {} else if n == 13 {} else if n == 14 {} else {
        assert(n == 15);
    }
}

/// Bytes are ordered as words in a dictionary: by the first byte in which they
/// differ, and what is a beginning of the other comes first.
pub proof fn law_bytes_are_ordered_as_in_a_dictionary(
    common: Seq<u8>,
    a: Seq<u8>,
    b: Seq<u8>,
)
    ensures
        a.len() > 0 && b.len() > 0 && a[0] != b[0] ==> (bytes_before(common + a, common + b) <==> a[0]
            < b[0]),
        b.len() > 0 ==> bytes_before(common, common + b),
        !bytes_before(common + b, common),
    decreases common.len(),
{
    if common.len() == 0 {
        assert(common + a =~= a);
        assert(common + b =~= b);
    } else {
        law_bytes_are_ordered_as_in_a_dictionary(common.skip(1), a, b);
        assert((common + a).skip(1) =~= common.skip(1) + a);
        assert((common + b).skip(1) =~= common.skip(1) + b);
    }
}

/// Replacing a character changes its occurrences and nothing else.
pub proof fn law_replaced_changes_just_that(text: Seq<char>, from: char, to: char)
    ensures
        replaced(text, from, to).len() == text.len(),
        forall|i: int|
            0 <= i < text.len() ==> (text[i] == from ==> #[trigger] replaced(text, from, to)[i] == to) && (text[i]
                != from ==> replaced(text, from, to)[i] == text[i]),
        from != to ==> !replaced(text, from, to).contains(from),
{
}

/// Whitespace is what Unicode calls so: of the ASCII characters the space, the tab
/// and the breaks of lines and pages, and beyond them the next line, the spaces of
/// other widths and the separators of lines and paragraphs.
pub proof fn law_what_whitespace_is(c: char)
    ensures
        c < '\u{80}' ==> (is_space(c) <==> c == ' ' || c == '\t' || c == '\n' || c == '\u{b}' || c == '\u{c}'
            || c == '\r'),
        c >= '\u{80}' ==> (is_space(c) <==> c == '\u{85}' || c == '\u{a0}' || c == '\u{1680}' || '\u{2000}'
            <= c <= '\u{200a}' || c == '\u{2028}' || c == '\u{2029}' || c == '\u{202f}' || c == '\u{205f}'
            || c == '\u{3000}'),
{
}

} // verus!
