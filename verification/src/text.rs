//! Text as sequences of characters.
//!
//! Strings come in and go out at the edges; in between, text is a list of
//! characters, and every operation is specified over `Seq<char>`.

use vstd::prelude::*;

verus! {

broadcast use vstd::string::group_string_axioms;

/// `String::push` appends one character.
pub assume_specification[ String::push ](text: &mut String, c: char)
    ensures
        final(text)@ == old(text)@.push(c),
;

/// What `str::to_lowercase` makes of a text: the Unicode lowercase mapping,
/// applied character by character with its context rules.
pub uninterp spec fn lowercase_spec(text: Seq<char>) -> Seq<char>;

/// Lowercases a text by `str::to_lowercase`. The mapping is Unicode's and is
/// not spelled out here: the result is only named.
#[verifier::external_body]
pub(crate) fn lowercase_str(text: &str) -> (lower: String)
    ensures
        lower@ == lowercase_spec(text@),
{
    text.to_lowercase()
}

/// The characters of `text`, in order.
pub fn chars_of(text: &str) -> (chars: Vec<char>)
    ensures
        chars@ == text@,
{
    let mut chars: Vec<char> = Vec::new();
    for c in it: text.chars()
        invariant
            it.seq() == text@,
            chars@ == text@.take(it.index() as int),
    {
        proof {
            assert(text@.take(it.index() + 1) =~= text@.take(it.index() as int).push(c));
        }
        chars.push(c);
    }
    proof {
        assert(text@.take(text@.len() as int) =~= text@);
    }
    chars
}

/// The string made of `chars`.
pub fn string_of(chars: &[char]) -> (text: String)
    ensures
        text@ == chars@,
{
    let mut text = String::new();
    let mut i: usize = 0;
    while i < chars.len()
        invariant
            i <= chars.len(),
            text@ == chars@.take(i as int),
        decreases chars.len() - i,
    {
        proof {
            assert(chars@.take(i + 1) =~= chars@.take(i as int).push(chars@[i as int]));
        }
        text.push(chars[i]);
        i = i + 1;
    }
    proof {
        assert(chars@.take(chars@.len() as int) =~= chars@);
    }
    text
}

/// The lowercase form of a list of characters.
pub fn lowercase(chars: &[char]) -> (lower: Vec<char>)
    ensures
        lower@ == lowercase_spec(chars@),
{
    let text = string_of(chars);
    let lowered = lowercase_str(text.as_str());
    chars_of(lowered.as_str())
}

/// Appends `tail` to `text`.
pub fn append_chars(text: &mut Vec<char>, tail: &[char])
    ensures
        final(text)@ == old(text)@ + tail@,
{
    let mut i: usize = 0;
    while i < tail.len()
        invariant
            i <= tail.len(),
            text@ == old(text)@ + tail@.take(i as int),
        decreases tail.len() - i,
    {
        proof {
            assert(old(text)@ + tail@.take(i + 1) =~= (old(text)@ + tail@.take(i as int)).push(
                tail@[i as int],
            ));
        }
        text.push(tail[i]);
        i = i + 1;
    }
    proof {
        assert(tail@.take(tail@.len() as int) =~= tail@);
    }
}

/// Appends the characters of a string to `text`.
pub fn append_str(text: &mut Vec<char>, tail: &str)
    ensures
        final(text)@ == old(text)@ + tail@,
{
    let chars = chars_of(tail);
    append_chars(text, chars.as_slice());
}

/// Whether two texts are the same, character for character.
pub fn same_chars(a: &[char], b: &[char]) -> (same: bool)
    ensures
        same == (a@ == b@),
{
    if a.len() != b.len() {
        return false;
    }
    let mut i: usize = 0;
    while i < a.len()
        invariant
            i <= a.len(),
            a.len() == b.len(),
            a@.take(i as int) == b@.take(i as int),
        decreases a.len() - i,
    {
        if a[i] != b[i] {
            return false;
        }
        proof {
            assert(a@.take(i + 1) =~= a@.take(i as int).push(a@[i as int]));
            assert(b@.take(i + 1) =~= b@.take(i as int).push(b@[i as int]));
        }
        i = i + 1;
    }
    proof {
        assert(a@.take(a@.len() as int) =~= a@);
        assert(b@.take(b@.len() as int) =~= b@);
    }
    true
}

/// Whether two strings hold the same text.
pub fn same_text(a: &str, b: &str) -> (same: bool)
    ensures
        same == (a@ == b@),
{
    let left = chars_of(a);
    let right = chars_of(b);
    same_chars(left.as_slice(), right.as_slice())
}

/// The characters with the Unicode property White_Space.
pub open spec fn is_space_spec(c: char) -> bool {
    let code = c as u32;
    (0x09 <= code <= 0x0d) || code == 0x20 || code == 0x85 || code == 0xa0 || code == 0x1680 || (
    0x2000 <= code <= 0x200a) || code == 0x2028 || code == 0x2029 || code == 0x202f || code
        == 0x205f || code == 0x3000
}

/// Whether `c` is white space.
pub fn is_space(c: char) -> (space: bool)
    ensures
        space == is_space_spec(c),
{
    let code: u32 = c as u32;
    (0x09 <= code && code <= 0x0d) || code == 0x20 || code == 0x85 || code == 0xa0 || code
        == 0x1680 || (0x2000 <= code && code <= 0x200a) || code == 0x2028 || code == 0x2029
        || code == 0x202f || code == 0x205f || code == 0x3000
}

/// `needle` stands in `hay` at position `at`.
pub open spec fn occurs_at(hay: Seq<char>, needle: Seq<char>, at: int) -> bool {
    &&& 0 <= at
    &&& at + needle.len() <= hay.len()
    &&& hay.subrange(at, at + needle.len()) == needle
}

/// `needle` stands somewhere in `hay`.
pub open spec fn contains_spec(hay: Seq<char>, needle: Seq<char>) -> bool {
    exists|at: int| occurs_at(hay, needle, at)
}

/// Whether `needle` stands in `hay` at position `at`.
pub fn matches_at(hay: &[char], needle: &[char], at: usize) -> (found: bool)
    ensures
        found == occurs_at(hay@, needle@, at as int),
{
    if at > hay.len() || needle.len() > hay.len() - at {
        return false;
    }
    let mut i: usize = 0;
    while i < needle.len()
        invariant
            i <= needle.len(),
            at + needle.len() <= hay.len(),
            hay@.subrange(at as int, at + i) == needle@.take(i as int),
        decreases needle.len() - i,
    {
        if hay[at + i] != needle[i] {
            proof {
                if hay@.subrange(at as int, at + needle.len()) == needle@ {
                    assert(hay@.subrange(at as int, at + needle.len())[i as int]
                        == needle@[i as int]);
                }
            }
            return false;
        }
        proof {
            assert(hay@.subrange(at as int, at + i + 1) =~= hay@.subrange(at as int, at + i).push(
                hay@[at + i],
            ));
            assert(needle@.take(i + 1) =~= needle@.take(i as int).push(needle@[i as int]));
        }
        i = i + 1;
    }
    proof {
        assert(needle@.take(needle@.len() as int) =~= needle@);
    }
    true
}

/// The first position at or after `from` where `needle` stands in `hay`.
pub fn find_from(hay: &[char], needle: &[char], from: usize) -> (found: Option<usize>)
    ensures
        match found {
            Some(at) => from <= at && occurs_at(hay@, needle@, at as int) && forall|k: int|
                from <= k < at ==> !occurs_at(hay@, needle@, k),
            None => forall|k: int| from <= k ==> !occurs_at(hay@, needle@, k),
        },
{
    if needle.len() > hay.len() {
        return None;
    }
    let last = hay.len() - needle.len();
    let mut at: usize = from;
    while at <= last
        invariant
            from <= at,
            last == hay.len() - needle.len(),
            forall|k: int| from <= k < at ==> !occurs_at(hay@, needle@, k),
        decreases last + 1 - at,
    {
        if matches_at(hay, needle, at) {
            return Some(at);
        }
        if at == last {
            return None;
        }
        at = at + 1;
    }
    None
}

/// Whether `needle` stands somewhere in `hay`.
pub fn contains(hay: &[char], needle: &[char]) -> (found: bool)
    ensures
        found == contains_spec(hay@, needle@),
{
    match find_from(hay, needle, 0) {
        Some(at) => {
            assert(occurs_at(hay@, needle@, at as int));
            true
        },
        None => false,
    }
}

/// Whether the string `needle` stands somewhere in `hay`.
pub fn contains_str(hay: &[char], needle: &str) -> (found: bool)
    ensures
        found == contains_spec(hay@, needle@),
{
    let pattern = chars_of(needle);
    contains(hay, pattern.as_slice())
}

/// `text` with every occurrence of `from` replaced by `to`, scanning from the
/// left and never looking again at what a replacement has consumed. An empty
/// `from` replaces nothing.
pub open spec fn replace_spec(text: Seq<char>, from: Seq<char>, to: Seq<char>) -> Seq<char>
    decreases text.len(),
{
    if from.len() == 0 || text.len() < from.len() {
        text
    } else if occurs_at(text, from, 0) {
        to + replace_spec(text.skip(from.len() as int), from, to)
    } else {
        seq![text[0]] + replace_spec(text.skip(1), from, to)
    }
}

/// Replaces every occurrence of `from` in `text` by `to`.
pub fn replace(text: &[char], from: &[char], to: &[char]) -> (replaced: Vec<char>)
    ensures
        replaced@ == replace_spec(text@, from@, to@),
{
    let mut replaced: Vec<char> = Vec::new();
    if from.len() == 0 {
        append_chars(&mut replaced, text);
        assert(replaced@ =~= text@);
        return replaced;
    }
    let mut at: usize = 0;
    assert(text@.skip(0) =~= text@);
    while at < text.len()
        invariant
            at <= text.len(),
            from.len() > 0,
            replaced@ + replace_spec(text@.skip(at as int), from@, to@) == replace_spec(
                text@,
                from@,
                to@,
            ),
        decreases text.len() - at,
    {
        let ghost rest = text@.skip(at as int);
        if matches_at(text, from, at) {
            proof {
                assert(rest.subrange(0, from@.len() as int) =~= text@.subrange(
                    at as int,
                    at + from@.len(),
                ));
                assert(rest.skip(from@.len() as int) =~= text@.skip(at + from@.len()));
                assert(replaced@ + (to@ + replace_spec(
                    rest.skip(from@.len() as int),
                    from@,
                    to@,
                )) =~= (replaced@ + to@) + replace_spec(rest.skip(from@.len() as int), from@, to@));
            }
            append_chars(&mut replaced, to);
            at = at + from.len();
        } else {
            proof {
                if rest.len() >= from@.len() {
                    assert(rest.subrange(0, from@.len() as int) =~= text@.subrange(
                        at as int,
                        at + from@.len(),
                    ));
                    assert(rest.skip(1) =~= text@.skip(at + 1));
                    assert(replaced@ + (seq![rest[0]] + replace_spec(rest.skip(1), from@, to@))
                        =~= replaced@.push(text@[at as int]) + replace_spec(
                        rest.skip(1),
                        from@,
                        to@,
                    ));
                } else {
                    // too short for any further match: the rest is copied as it is
                    lemma_replace_of_short(rest, from@, to@);
                    lemma_replace_of_short(rest.skip(1), from@, to@);
                    assert(rest.skip(1) =~= text@.skip(at + 1));
                    assert(replaced@ + rest =~= replaced@.push(text@[at as int]) + rest.skip(1));
                }
            }
            replaced.push(text[at]);
            at = at + 1;
        }
    }
    proof {
        assert(text@.skip(at as int).len() == 0);
        assert(replaced@ + text@.skip(at as int) =~= replaced@);
    }
    replaced
}

/// A text shorter than the pattern is left as it is.
proof fn lemma_replace_of_short(text: Seq<char>, from: Seq<char>, to: Seq<char>)
    requires
        text.len() < from.len(),
    ensures
        replace_spec(text, from, to) == text,
{
}

/// `text` without its leading white space.
pub open spec fn trim_start_spec(text: Seq<char>) -> Seq<char>
    decreases text.len(),
{
    if text.len() > 0 && is_space_spec(text[0]) {
        trim_start_spec(text.skip(1))
    } else {
        text
    }
}

/// `text` without its trailing white space.
pub open spec fn trim_end_spec(text: Seq<char>) -> Seq<char>
    decreases text.len(),
{
    if text.len() > 0 && is_space_spec(text.last()) {
        trim_end_spec(text.drop_last())
    } else {
        text
    }
}

/// `text` without leading and trailing white space.
pub open spec fn trim_spec(text: Seq<char>) -> Seq<char> {
    trim_end_spec(trim_start_spec(text))
}

/// Number of leading white-space characters.
fn leading_spaces(text: &[char]) -> (count: usize)
    ensures
        count <= text.len(),
        trim_start_spec(text@) == text@.skip(count as int),
{
    let mut count: usize = 0;
    assert(text@.skip(0) =~= text@);
    while count < text.len() && is_space(text[count])
        invariant
            count <= text.len(),
            trim_start_spec(text@) == trim_start_spec(text@.skip(count as int)),
        decreases text.len() - count,
    {
        proof {
            assert(text@.skip(count as int).skip(1) =~= text@.skip(count + 1));
        }
        count = count + 1;
    }
    count
}

/// Length of `text` without its trailing white space, never below `floor`.
fn trimmed_end(text: &[char], floor: usize) -> (end: usize)
    requires
        floor <= text.len(),
    ensures
        floor <= end <= text.len(),
        trim_end_spec(text@.subrange(floor as int, text.len() as int)) == text@.subrange(
            floor as int,
            end as int,
        ),
{
    let mut end: usize = text.len();
    while end > floor && is_space(text[end - 1])
        invariant
            floor <= end <= text.len(),
            trim_end_spec(text@.subrange(floor as int, text.len() as int)) == trim_end_spec(
                text@.subrange(floor as int, end as int),
            ),
        decreases end,
    {
        proof {
            assert(text@.subrange(floor as int, end as int).drop_last() =~= text@.subrange(
                floor as int,
                end - 1,
            ));
        }
        end = end - 1;
    }
    end
}

/// Copies `text[from..to]`.
pub fn slice_chars(text: &[char], from: usize, to: usize) -> (part: Vec<char>)
    requires
        from <= to <= text.len(),
    ensures
        part@ == text@.subrange(from as int, to as int),
{
    let mut part: Vec<char> = Vec::new();
    let mut i: usize = from;
    while i < to
        invariant
            from <= i <= to <= text.len(),
            part@ == text@.subrange(from as int, i as int),
        decreases to - i,
    {
        proof {
            assert(text@.subrange(from as int, i + 1) =~= text@.subrange(from as int, i as int).push(
                text@[i as int],
            ));
        }
        part.push(text[i]);
        i = i + 1;
    }
    part
}

/// Strips leading and trailing white space.
pub fn trim(text: &[char]) -> (trimmed: Vec<char>)
    ensures
        trimmed@ == trim_spec(text@),
{
    let start = leading_spaces(text);
    let end = trimmed_end(text, start);
    proof {
        assert(text@.skip(start as int) =~= text@.subrange(start as int, text.len() as int));
    }
    slice_chars(text, start, end)
}

/// Number of leading characters that are not white space.
pub open spec fn word_len_spec(text: Seq<char>) -> nat
    decreases text.len(),
{
    if text.len() > 0 && !is_space_spec(text[0]) {
        1 + word_len_spec(text.skip(1))
    } else {
        0
    }
}

/// The words of `text`: its maximal runs of characters that are not white space.
pub open spec fn words_spec(text: Seq<char>) -> Seq<Seq<char>>
    decreases text.len(),
{
    if text.len() == 0 {
        Seq::empty()
    } else if is_space_spec(text[0]) {
        words_spec(text.skip(1))
    } else {
        let n = word_len_spec(text);
        if 0 < n <= text.len() {
            seq![text.take(n as int)] + words_spec(text.skip(n as int))
        } else {
            Seq::empty()
        }
    }
}

/// A word is never longer than the text it starts.
pub proof fn lemma_word_len(text: Seq<char>)
    ensures
        word_len_spec(text) <= text.len(),
        text.len() > 0 && !is_space_spec(text[0]) ==> word_len_spec(text) > 0,
    decreases text.len(),
{
    if text.len() > 0 && !is_space_spec(text[0]) {
        lemma_word_len(text.skip(1));
    }
}

/// Splits `text` into its words.
pub fn split_whitespace(text: &[char]) -> (words: Vec<Vec<char>>)
    ensures
        words@.len() == words_spec(text@).len(),
        forall|i: int| 0 <= i < words@.len() ==> (#[trigger] words@[i])@ == words_spec(text@)[i],
{
    let mut words: Vec<Vec<char>> = Vec::new();
    let mut at: usize = 0;
    let ghost mut done: Seq<Seq<char>> = Seq::empty();
    assert(text@.skip(0) =~= text@);
    while at < text.len()
        invariant
            at <= text.len(),
            done.len() == words@.len(),
            forall|i: int| 0 <= i < words@.len() ==> (#[trigger] words@[i])@ == done[i],
            done + words_spec(text@.skip(at as int)) == words_spec(text@),
        decreases text.len() - at,
    {
        let ghost rest = text@.skip(at as int);
        if is_space(text[at]) {
            proof {
                assert(rest.skip(1) =~= text@.skip(at + 1));
            }
            at = at + 1;
        } else {
            let start = at;
            let mut end: usize = at;
            assert(text@.skip(at as int).skip(0) =~= rest);
            while end < text.len() && !is_space(text[end])
                invariant
                    start <= end <= text.len(),
                    word_len_spec(rest) == (end - start) + word_len_spec(text@.skip(end as int)),
                    rest == text@.skip(start as int),
                decreases text.len() - end,
            {
                proof {
                    assert(text@.skip(end as int).skip(1) =~= text@.skip(end + 1));
                }
                end = end + 1;
            }
            let word = slice_chars(text, start, end);
            proof {
                lemma_word_len(rest);
                let n = word_len_spec(rest);
                assert(n == end - start);
                assert(rest.take(n as int) =~= text@.subrange(start as int, end as int));
                assert(rest.skip(n as int) =~= text@.skip(end as int));
                assert(done + (seq![rest.take(n as int)] + words_spec(rest.skip(n as int)))
                    =~= done.push(word@) + words_spec(text@.skip(end as int)));
                done = done.push(word@);
            }
            words.push(word);
            at = end;
        }
    }
    proof {
        assert(text@.skip(at as int).len() == 0);
        assert(done + words_spec(text@.skip(at as int)) =~= done);
    }
    words
}

/// The last position before `limit` at which `text` holds `wanted`.
pub open spec fn last_index_spec(text: Seq<char>, wanted: char, limit: int) -> Option<int>
    decreases limit,
{
    if limit <= 0 {
        None
    } else if text[limit - 1] == wanted {
        Some(limit - 1)
    } else {
        last_index_spec(text, wanted, limit - 1)
    }
}

/// The last position before `limit` that holds `wanted`.
pub fn rfind_char(text: &[char], wanted: char, limit: usize) -> (found: Option<usize>)
    requires
        limit <= text.len(),
    ensures
        match found {
            Some(at) => at < limit && last_index_spec(text@, wanted, limit as int) == Some(
                at as int,
            ),
            None => last_index_spec(text@, wanted, limit as int) is None,
        },
{
    let mut at: usize = limit;
    while at > 0
        invariant
            at <= limit <= text.len(),
            last_index_spec(text@, wanted, limit as int) == last_index_spec(
                text@,
                wanted,
                at as int,
            ),
        decreases at,
    {
        if text[at - 1] == wanted {
            return Some(at - 1);
        }
        at = at - 1;
    }
    None
}

/// Decimal digits of `value`, most significant first.
pub open spec fn decimal_spec(value: nat) -> Seq<char>
    decreases value,
{
    if value < 10 {
        seq![digit_spec(value)]
    } else {
        decimal_spec(value / 10).push(digit_spec(value % 10))
    }
}

/// The character for one decimal digit.
pub open spec fn digit_spec(digit: nat) -> char {
    if digit == 0 {
        '0'
    } else if digit == 1 {
        '1'
    } else if digit == 2 {
        '2'
    } else if digit == 3 {
        '3'
    } else if digit == 4 {
        '4'
    } else if digit == 5 {
        '5'
    } else if digit == 6 {
        '6'
    } else if digit == 7 {
        '7'
    } else if digit == 8 {
        '8'
    } else {
        '9'
    }
}

fn digit(value: u64) -> (c: char)
    requires
        value < 10,
    ensures
        c == digit_spec(value as nat),
{
    if value == 0 {
        '0'
    } else if value == 1 {
        '1'
    } else if value == 2 {
        '2'
    } else if value == 3 {
        '3'
    } else if value == 4 {
        '4'
    } else if value == 5 {
        '5'
    } else if value == 6 {
        '6'
    } else if value == 7 {
        '7'
    } else if value == 8 {
        '8'
    } else {
        '9'
    }
}

/// Writes `value` in decimal.
pub fn decimal(value: u64) -> (digits: Vec<char>)
    ensures
        digits@ == decimal_spec(value as nat),
    decreases value,
{
    if value < 10 {
        let mut digits: Vec<char> = Vec::new();
        digits.push(digit(value));
        digits
    } else {
        let mut digits = decimal(value / 10);
        digits.push(digit(value % 10));
        digits
    }
}

/// Appends `value` in decimal to `text`.
pub fn append_decimal(text: &mut Vec<char>, value: u64)
    ensures
        final(text)@ == old(text)@ + decimal_spec(value as nat),
{
    let digits = decimal(value);
    append_chars(text, digits.as_slice());
}

/// An owned copy of a string slice.
pub fn owned(text: &str) -> (copy: String)
    ensures
        copy@ == text@,
{
    text.to_owned()
}

/// `parts` joined, with `separator` between neighbours.
pub open spec fn join_spec(parts: Seq<Seq<char>>, separator: Seq<char>) -> Seq<char>
    decreases parts.len(),
{
    if parts.len() == 0 {
        Seq::empty()
    } else if parts.len() == 1 {
        parts[0]
    } else {
        join_spec(parts.drop_last(), separator) + separator + parts.last()
    }
}

/// The views of a list of strings.
pub open spec fn string_views(strings: Seq<String>) -> Seq<Seq<char>> {
    Seq::new(strings.len(), |i: int| strings[i]@)
}

/// Joins `parts`, putting `separator` between neighbours.
pub fn join(parts: &Vec<String>, separator: &str) -> (joined: Vec<char>)
    ensures
        joined@ == join_spec(string_views(parts@), separator@),
{
    let mut joined: Vec<char> = Vec::new();
    let mut i: usize = 0;
    let ghost views = string_views(parts@);
    while i < parts.len()
        invariant
            i <= parts.len(),
            views == string_views(parts@),
            joined@ == join_spec(views.take(i as int), separator@),
        decreases parts.len() - i,
    {
        proof {
            assert(views.take(i + 1).drop_last() =~= views.take(i as int));
            assert(views.take(i + 1).last() == parts@[i as int]@);
            if i == 0 {
                assert(views.take(1)[0] == parts@[0]@);
                assert(Seq::<char>::empty() + parts@[0]@ =~= parts@[0]@);
            }
        }
        if i > 0 {
            append_str(&mut joined, separator);
        }
        append_str(&mut joined, parts[i].as_str());
        i = i + 1;
    }
    proof {
        assert(views.take(i as int) =~= views);
    }
    joined
}

/// `text` without the copies of `prefix` that it starts with; an empty
/// prefix takes nothing away.
pub open spec fn trim_start_matches_spec(text: Seq<char>, prefix: Seq<char>) -> Seq<char>
    decreases text.len(),
{
    if prefix.len() > 0 && occurs_at(text, prefix, 0) {
        trim_start_matches_spec(text.skip(prefix.len() as int), prefix)
    } else {
        text
    }
}

/// `text` without the copies of `suffix` that it ends with; an empty suffix
/// takes nothing away.
pub open spec fn trim_end_matches_spec(text: Seq<char>, suffix: Seq<char>) -> Seq<char>
    decreases text.len(),
{
    if suffix.len() > 0 && occurs_at(text, suffix, text.len() - suffix.len()) {
        trim_end_matches_spec(text.take(text.len() - suffix.len()), suffix)
    } else {
        text
    }
}

/// Takes away the copies of `prefix` that `text` starts with.
pub fn trim_start_matches(text: &[char], prefix: &[char]) -> (rest: Vec<char>)
    ensures
        rest@ == trim_start_matches_spec(text@, prefix@),
{
    let mut at: usize = 0;
    assert(text@.skip(0) =~= text@);
    if prefix.len() > 0 {
        while matches_at(text, prefix, at)
            invariant
                at <= text.len(),
                prefix.len() > 0,
                trim_start_matches_spec(text@, prefix@) == trim_start_matches_spec(
                    text@.skip(at as int),
                    prefix@,
                ),
            decreases text.len() - at,
        {
            proof {
                let rest = text@.skip(at as int);
                assert(rest.subrange(0, prefix@.len() as int) =~= text@.subrange(
                    at as int,
                    at + prefix@.len(),
                ));
                assert(rest.skip(prefix@.len() as int) =~= text@.skip(at + prefix@.len()));
            }
            at = at + prefix.len();
        }
        proof {
            let rest = text@.skip(at as int);
            if rest.len() >= prefix@.len() {
                assert(rest.subrange(0, prefix@.len() as int) =~= text@.subrange(
                    at as int,
                    at + prefix@.len(),
                ));
            }
        }
    }
    let rest = slice_chars(text, at, text.len());
    assert(rest@ =~= text@.skip(at as int));
    rest
}

/// Takes away the copies of `suffix` that `text` ends with.
pub fn trim_end_matches(text: &[char], suffix: &[char]) -> (rest: Vec<char>)
    ensures
        rest@ == trim_end_matches_spec(text@, suffix@),
{
    let mut end: usize = text.len();
    assert(text@.take(end as int) =~= text@);
    if suffix.len() > 0 {
        while end >= suffix.len() && matches_at(text, suffix, end - suffix.len())
            invariant
                end <= text.len(),
                suffix.len() > 0,
                trim_end_matches_spec(text@, suffix@) == trim_end_matches_spec(
                    text@.take(end as int),
                    suffix@,
                ),
            decreases end,
        {
            proof {
                let head = text@.take(end as int);
                assert(head.subrange(end - suffix@.len(), end as int) =~= text@.subrange(
                    end - suffix@.len(),
                    end as int,
                ));
                assert(head.take(end - suffix@.len()) =~= text@.take(end - suffix@.len()));
            }
            end = end - suffix.len();
        }
        proof {
            let head = text@.take(end as int);
            if end >= suffix@.len() {
                assert(head.subrange(end - suffix@.len(), end as int) =~= text@.subrange(
                    end - suffix@.len(),
                    end as int,
                ));
            }
        }
    }
    let rest = slice_chars(text, 0, end);
    assert(rest@ =~= text@.take(end as int));
    rest
}

/// `text` cut to `max_chars` characters and marked with an ellipsis, where
/// it is longer.
pub open spec fn truncate_text_spec(text: Seq<char>, max_chars: nat) -> Seq<char> {
    if text.len() <= max_chars {
        text
    } else {
        text.take(max_chars as int) + "..."@
    }
}

/// Cuts a text to `max_chars` characters and marks the cut with an ellipsis.
pub fn truncate_text(text: &str, max_chars: usize) -> (cut: String)
    ensures
        cut@ == truncate_text_spec(text@, max_chars as nat),
{
    let chars = chars_of(text);
    if chars.len() <= max_chars {
        return string_of(chars.as_slice());
    }
    let mut cut = slice_chars(chars.as_slice(), 0, max_chars);
    append_str(&mut cut, "...");
    string_of(cut.as_slice())
}

/// `text` cut to at most `max_chars` characters at a natural place, where it
/// is longer: at the last line break within them, or else before the last
/// space and marked with an ellipsis, or else at `max_chars` and marked.
pub open spec fn truncate_at_break_spec(text: Seq<char>, max_chars: nat) -> Seq<char> {
    if text.len() <= max_chars {
        text
    } else {
        match last_index_spec(text, '\n', max_chars as int) {
            Some(at) => text.take(at),
            None => match last_index_spec(text, ' ', max_chars as int) {
                Some(at) => text.take(at) + "..."@,
                None => text.take(max_chars as int) + "..."@,
            },
        }
    }
}

/// Cuts a text to at most `max_chars` characters at a natural place.
pub fn truncate_at_break(text: &str, max_chars: usize) -> (cut: String)
    ensures
        cut@ == truncate_at_break_spec(text@, max_chars as nat),
{
    let chars = chars_of(text);
    if chars.len() <= max_chars {
        return string_of(chars.as_slice());
    }
    match rfind_char(chars.as_slice(), '\n', max_chars) {
        Some(at) => {
            let cut = slice_chars(chars.as_slice(), 0, at);
            string_of(cut.as_slice())
        },
        None => {
            let end = match rfind_char(chars.as_slice(), ' ', max_chars) {
                Some(at) => at,
                None => max_chars,
            };
            let mut cut = slice_chars(chars.as_slice(), 0, end);
            append_str(&mut cut, "...");
            string_of(cut.as_slice())
        },
    }
}

/// The first position at or after `from` at which `text` holds `wanted`.
pub open spec fn first_index_spec(text: Seq<char>, wanted: char, from: int) -> Option<int>
    decreases text.len() - from,
{
    if from < 0 || from >= text.len() {
        None
    } else if text[from] == wanted {
        Some(from)
    } else {
        first_index_spec(text, wanted, from + 1)
    }
}

/// The first position at or after `from` that holds `wanted`.
pub fn find_char(text: &[char], wanted: char, from: usize) -> (found: Option<usize>)
    ensures
        match found {
            Some(at) => from <= at < text@.len() && first_index_spec(text@, wanted, from as int)
                == Some(at as int),
            None => first_index_spec(text@, wanted, from as int) is None,
        },
{
    let mut at: usize = from;
    while at < text.len()
        invariant
            from <= at,
            first_index_spec(text@, wanted, from as int) == first_index_spec(
                text@,
                wanted,
                at as int,
            ),
        decreases text.len() - at,
    {
        if text[at] == wanted {
            return Some(at);
        }
        at = at + 1;
    }
    None
}

/// A line without the carriage return that may end it.
pub open spec fn without_return_spec(line: Seq<char>) -> Seq<char> {
    if line.len() > 0 && line.last() == '\r' {
        line.drop_last()
    } else {
        line
    }
}

/// The lines of the part of `text` from `from` on: a line ends with a line
/// feed, which does not belong to it, nor does a carriage return before the
/// line feed; what follows the last line feed is a line too, unless it is empty.
pub open spec fn lines_from_spec(text: Seq<char>, from: int) -> Seq<Seq<char>>
    decreases text.len() - from,
{
    if from < 0 || from >= text.len() {
        Seq::empty()
    } else {
        match first_index_spec(text, '\n', from) {
            Some(at) => if from <= at < text.len() {
                seq![without_return_spec(text.subrange(from, at))] + lines_from_spec(text, at + 1)
            } else {
                Seq::empty()
            },
            None => seq![text.subrange(from, text.len() as int)],
        }
    }
}

/// The lines of `text`.
pub open spec fn lines_spec(text: Seq<char>) -> Seq<Seq<char>> {
    lines_from_spec(text, 0)
}

/// Splits `text` into its lines.
pub fn lines(text: &[char]) -> (found: Vec<Vec<char>>)
    ensures
        found@.len() == lines_spec(text@).len(),
        forall|i: int| 0 <= i < found@.len() ==> (#[trigger] found@[i])@ == lines_spec(text@)[i],
{
    let mut found: Vec<Vec<char>> = Vec::new();
    let ghost mut done: Seq<Seq<char>> = Seq::empty();
    let mut from: usize = 0;
    assert(done + lines_from_spec(text@, 0) =~= lines_spec(text@));
    while from < text.len()
        invariant
            done.len() == found@.len(),
            forall|i: int| 0 <= i < found@.len() ==> (#[trigger] found@[i])@ == done[i],
            done + lines_from_spec(text@, from as int) == lines_spec(text@),
        decreases text.len() - from,
    {
        match find_char(text, '\n', from) {
            Some(at) => {
                let end = if at > from && text[at - 1] == '\r' {
                    at - 1
                } else {
                    at
                };
                let line = slice_chars(text, from, end);
                proof {
                    let whole = text@.subrange(from as int, at as int);
                    if at > from {
                        assert(whole.last() == text@[at - 1]);
                    }
                    assert(line@ =~= without_return_spec(whole));
                    assert(done + (seq![line@] + lines_from_spec(text@, at + 1)) =~= done.push(
                        line@,
                    ) + lines_from_spec(text@, at + 1));
                    done = done.push(line@);
                }
                found.push(line);
                from = at + 1;
            },
            None => {
                let line = slice_chars(text, from, text.len());
                proof {
                    assert(done + seq![line@] =~= done.push(line@));
                    done = done.push(line@);
                    assert(done + lines_from_spec(text@, text@.len() as int) =~= done);
                }
                found.push(line);
                from = text.len();
            },
        }
    }
    proof {
        assert(done + lines_from_spec(text@, from as int) =~= done);
    }
    found
}

} // verus!
