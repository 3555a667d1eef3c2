//! Text on the level of characters: searching, splitting into words,
//! escaping, and writing numbers.

use vstd::prelude::*;

verus! {

/// The character of one decimal digit.
pub open spec fn digit_char(d: int) -> char {
    if d == 0 { '0' }
    else if d == 1 { '1' }
    else if d == 2 { '2' }
    else if d == 3 { '3' }
    else if d == 4 { '4' }
    else if d == 5 { '5' }
    else if d == 6 { '6' }
    else if d == 7 { '7' }
    else if d == 8 { '8' }
    else { '9' }
}

/// Decimal digits of a natural number, without leading zeros.
pub open spec fn decimal(n: nat) -> Seq<char>
    decreases n,
{
    if n < 10 {
        seq![digit_char(n as int)]
    } else {
        decimal(n / 10).push(digit_char((n % 10) as int))
    }
}

/// `digits` preceded by as many zeros as it lacks to `width`.
pub open spec fn zero_padded(digits: Seq<char>, width: nat) -> Seq<char> {
    if digits.len() >= width {
        digits
    } else {
        Seq::new((width - digits.len()) as nat, |i: int| '0') + digits
    }
}

/// Whether `needle` occurs in `hay` as a run of neighbouring characters.
pub open spec fn contains_text(hay: Seq<char>, needle: Seq<char>) -> bool {
    exists|at: int| occurs_at(hay, needle, at)
}

/// Whether `needle` stands in `hay` from position `at` on.
pub open spec fn occurs_at(hay: Seq<char>, needle: Seq<char>, at: int) -> bool {
    &&& 0 <= at
    &&& at + needle.len() <= hay.len()
    &&& hay.subrange(at, at + needle.len()) == needle
}

/// The characters of a string, one by one.
pub fn to_chars(text: &str) -> (chars: Vec<char>)
    ensures
        chars@ == text@,
{
    let n: usize = text.unicode_len();
    let mut chars: Vec<char> = Vec::new();
    let mut i: usize = 0;
    while i < n
        invariant
            n == text@.len(),
            i <= n,
            chars@ == text@.take(i as int),
        decreases n - i,
    {
        chars.push(text.get_char(i));
        i += 1;
    }
    chars
}

/// Whether `needle` stands in `hay` from position `at` on.
fn matches_at(hay: &Vec<char>, needle: &Vec<char>, at: usize) -> (found: bool)
    requires
        at + needle@.len() <= hay@.len(),
    ensures
        found == occurs_at(hay@, needle@, at as int),
{
    let n: usize = hay.len();
    let m: usize = needle.len();
    let mut j: usize = 0;
    while j < m
        invariant
            n == hay@.len(),
            m == needle@.len(),
            at + m <= n,
            j <= m,
            forall|k: int| 0 <= k < j ==> hay@[at + k] == needle@[k],
        decreases m - j,
    {
        if hay[at + j] != needle[j] {
            proof {
                let window = hay@.subrange(at as int, at + m);
                assert(window[j as int] == hay@[at + j]);
            }
            return false;
        }
        j += 1;
    }
    assert(hay@.subrange(at as int, at + m) =~= needle@);
    true
}

/// Whether `needle` occurs in `hay`. The empty text occurs in every text.
pub fn contains(hay: &str, needle: &str) -> (found: bool)
    ensures
        found == contains_text(hay@, needle@),
{
    let hay_chars = to_chars(hay);
    let needle_chars = to_chars(needle);
    let n: usize = hay_chars.len();
    let m: usize = needle_chars.len();
    if m > n {
        return false;
    }
    let last: usize = n - m;
    let mut at: usize = 0;
    while at < last
        invariant
            hay_chars@ == hay@,
            needle_chars@ == needle@,
            n == hay_chars@.len(),
            m == needle_chars@.len(),
            last == n - m,
            at <= last,
            forall|k: int| 0 <= k < at ==> !occurs_at(hay@, needle@, k),
        decreases last - at,
    {
        if matches_at(&hay_chars, &needle_chars, at) {
            return true;
        }
        at += 1;
    }
    matches_at(&hay_chars, &needle_chars, last)
}

/// Whether two texts hold the same characters.
pub fn same_text(a: &str, b: &str) -> (same: bool)
    ensures
        same == (a@ == b@),
{
    let n: usize = a.unicode_len();
    if b.unicode_len() != n {
        return false;
    }
    let mut i: usize = 0;
    while i < n
        invariant
            n == a@.len(),
            n == b@.len(),
            i <= n,
            forall|k: int| 0 <= k < i ==> a@[k] == b@[k],
        decreases n - i,
    {
        if a.get_char(i) != b.get_char(i) {
            return false;
        }
        i += 1;
    }
    assert(a@ =~= b@);
    true
}

/// The lowercase form of a text by the rules of Unicode, as
/// `str::to_lowercase` of the standard library gives it.
pub uninterp spec fn lowercase_of(text: Seq<char>) -> Seq<char>;

/// Calls `str::to_lowercase`.
///
/// Trusted: the result depends on the characters of `text` alone.
#[verifier::external_body]
fn to_lowercase(text: &str) -> (lowered: String)
    ensures
        lowered@ == lowercase_of(text@),
{
    text.to_lowercase()
}

/// Whether `needle` occurs in `hay` when the case of letters is set aside.
pub fn contains_ignoring_case(hay: &str, needle: &str) -> (found: bool)
    ensures
        found == contains_text(lowercase_of(hay@), lowercase_of(needle@)),
{
    let hay_lowered = to_lowercase(hay);
    let needle_lowered = to_lowercase(needle);
    contains(hay_lowered.as_str(), needle_lowered.as_str())
}

/// The text of one decimal digit.
fn digit_str(d: u8) -> (text: &'static str)
    requires
        d < 10,
    ensures
        text@ == seq![digit_char(d as int)],
{
    proof {
        reveal_strlit("0");
        reveal_strlit("1");
        reveal_strlit("2");
        reveal_strlit("3");
        reveal_strlit("4");
        reveal_strlit("5");
        reveal_strlit("6");
        reveal_strlit("7");
        reveal_strlit("8");
        reveal_strlit("9");
    }
    let text = if d == 0 { "0" }
        else if d == 1 { "1" }
        else if d == 2 { "2" }
        else if d == 3 { "3" }
        else if d == 4 { "4" }
        else if d == 5 { "5" }
        else if d == 6 { "6" }
        else if d == 7 { "7" }
        else if d == 8 { "8" }
        else { "9" };
    assert(text@ =~= seq![digit_char(d as int)]);
    text
}

/// Writes a number in decimal digits.
pub fn write_decimal(n: u128) -> (text: String)
    ensures
        text@ == decimal(n as nat),
    decreases n,
{
    if n < 10 {
        String::from_str(digit_str(n as u8))
    } else {
        let mut text = write_decimal(n / 10);
        text.append(digit_str((n % 10) as u8));
        assert(text@ =~= decimal((n / 10) as nat).push(digit_char((n % 10) as int)));
        text
    }
}

/// The characters that part words: those with the Unicode property
/// `White_Space`.
pub open spec fn is_space(c: char) -> bool {
    let code = c as u32;
    ||| 0x09 <= code <= 0x0d
    ||| code == 0x20
    ||| code == 0x85
    ||| code == 0xa0
    ||| code == 0x1680
    ||| 0x2000 <= code <= 0x200a
    ||| code == 0x2028
    ||| code == 0x2029
    ||| code == 0x202f
    ||| code == 0x205f
    ||| code == 0x3000
}

/// Whether a character parts words.
pub fn is_whitespace(c: char) -> (space: bool)
    ensures
        space == is_space(c),
{
    let code: u32 = c as u32;
    (0x09 <= code && code <= 0x0d) || code == 0x20 || code == 0x85 || code == 0xa0
        || code == 0x1680 || (0x2000 <= code && code <= 0x200a) || code == 0x2028
        || code == 0x2029 || code == 0x202f || code == 0x205f || code == 0x3000
}

/// A text read from the left: the words that have ended, and the
/// characters of a word that has not ended yet.
pub struct Scan {
    pub done: Seq<Seq<char>>,
    pub open: Seq<char>,
}

impl Scan {
    /// The words, the open one included.
    pub open spec fn close(self) -> Seq<Seq<char>> {
        if self.open.len() == 0 {
            self.done
        } else {
            self.done.push(self.open)
        }
    }
}

/// Reads `text` from the left, parting words at spaces.
pub open spec fn scan(text: Seq<char>) -> Scan
    decreases text.len(),
{
    if text.len() == 0 {
        Scan { done: Seq::empty(), open: Seq::empty() }
    } else {
        let before = scan(text.drop_last());
        if is_space(text.last()) {
            Scan { done: before.close(), open: Seq::empty() }
        } else {
            Scan { done: before.done, open: before.open.push(text.last()) }
        }
    }
}

/// The words of a text: its longest runs of characters that are no spaces,
/// from left to right.
pub open spec fn words(text: Seq<char>) -> Seq<Seq<char>> {
    scan(text).close()
}

/// Whether a text is a word: not empty, and without a space.
pub open spec fn is_word(text: Seq<char>) -> bool {
    &&& text.len() > 0
    &&& forall|i: int| 0 <= i < text.len() ==> !is_space(#[trigger] text[i])
}

/// Every word of a text is a word: not empty, and without a space.
pub proof fn lemma_words(text: Seq<char>)
    ensures
        forall|k: int| 0 <= k < words(text).len() ==> is_word(#[trigger] words(text)[k]),
        forall|k: int| 0 <= k < scan(text).done.len() ==> is_word(#[trigger] scan(text).done[k]),
        forall|i: int| 0 <= i < scan(text).open.len() ==> !is_space(#[trigger] scan(text).open[i]),
    decreases text.len(),
{
    if text.len() > 0 {
        let before = scan(text.drop_last());
        lemma_words(text.drop_last());
        assert forall|k: int| 0 <= k < scan(text).done.len() implies is_word(
            #[trigger] scan(text).done[k],
        ) by {
            if is_space(text.last()) {
                if k < before.done.len() {
                    assert(scan(text).done[k] == before.done[k]);
                } else {
                    assert(scan(text).done[k] == before.open);
                }
            } else {
                assert(scan(text).done[k] == before.done[k]);
            }
        }
        assert forall|i: int| 0 <= i < scan(text).open.len() implies !is_space(
            #[trigger] scan(text).open[i],
        ) by {
            if i < before.open.len() {
                assert(scan(text).open[i] == before.open[i]);
            }
        }
    }
    assert forall|k: int| 0 <= k < words(text).len() implies is_word(#[trigger] words(text)[k]) by {
        if k < scan(text).done.len() {
            assert(words(text)[k] == scan(text).done[k]);
        } else {
            assert(words(text)[k] == scan(text).open);
        }
    }
}

/// A text that ends in a space and a run of characters that are no
/// spaces: the words before the space have ended, and the run is the open
/// word.
pub proof fn lemma_scan_behind_space(head: Seq<char>, run: Seq<char>)
    requires
        forall|i: int| 0 <= i < run.len() ==> !is_space(#[trigger] run[i]),
    ensures
        scan(head + seq![' '] + run) == (Scan { done: scan(head).close(), open: run }),
    decreases run.len(),
{
    let text = head + seq![' '] + run;
    if run.len() == 0 {
        assert(text.drop_last() =~= head);
        assert(text.last() == ' ');
        assert(scan(text).open =~= run);
    } else {
        let shorter = run.drop_last();
        assert(text.drop_last() =~= head + seq![' '] + shorter);
        assert(text.last() == run.last());
        lemma_scan_behind_space(head, shorter);
        assert(shorter.push(run.last()) =~= run);
    }
}

/// A word behind a text and a space is one more word: the last one.
pub proof fn lemma_words_with_one_more(head: Seq<char>, word: Seq<char>)
    requires
        is_word(word),
    ensures
        words(head + seq![' '] + word) == words(head).push(word),
{
    lemma_scan_behind_space(head, word);
}

/// A character that a text does not hold stands in none of its words.
pub proof fn lemma_words_hold_what_the_text_holds(text: Seq<char>, c: char)
    requires
        !text.contains(c),
    ensures
        forall|k: int| 0 <= k < words(text).len() ==> !(#[trigger] words(text)[k]).contains(c),
        forall|k: int| 0 <= k < scan(text).done.len() ==> !(#[trigger] scan(text).done[k]).contains(c),
        !scan(text).open.contains(c),
    decreases text.len(),
{
    if text.len() > 0 {
        let shorter = text.drop_last();
        let before = scan(shorter);
        assert(!shorter.contains(c)) by {
            if shorter.contains(c) {
                let i = choose|i: int| 0 <= i < shorter.len() && shorter[i] == c;
                assert(text[i] == c);
            }
        }
        assert(text.last() != c) by {
            assert(text[text.len() - 1] == text.last());
        }
        lemma_words_hold_what_the_text_holds(shorter, c);
        assert forall|k: int| 0 <= k < scan(text).done.len() implies !(#[trigger] scan(
            text,
        ).done[k]).contains(c) by {
            if is_space(text.last()) {
                if k < before.done.len() {
                    assert(scan(text).done[k] == before.done[k]);
                } else {
                    assert(scan(text).done[k] == before.open);
                }
            } else {
                assert(scan(text).done[k] == before.done[k]);
            }
        }
        assert(!scan(text).open.contains(c)) by {
            if scan(text).open.contains(c) {
                let i = choose|i: int| 0 <= i < scan(text).open.len() && scan(text).open[i] == c;
                if i < before.open.len() {
                    assert(before.open[i] == c);
                }
            }
        }
    }
    assert forall|k: int| 0 <= k < words(text).len() implies !(#[trigger] words(text)[k]).contains(
        c,
    ) by {
        if k < scan(text).done.len() {
            assert(words(text)[k] == scan(text).done[k]);
        } else {
            assert(words(text)[k] == scan(text).open);
        }
    }
}

/// Taking out a character that a text does not hold leaves the text.
pub proof fn lemma_without_absent(text: Seq<char>, c: char)
    requires
        !text.contains(c),
    ensures
        without_char(text, c) == text,
    decreases text.len(),
{
    if text.len() > 0 {
        let shorter = text.drop_last();
        assert(!shorter.contains(c)) by {
            if shorter.contains(c) {
                let i = choose|i: int| 0 <= i < shorter.len() && shorter[i] == c;
                assert(text[i] == c);
            }
        }
        assert(text.last() != c) by {
            assert(text[text.len() - 1] == text.last());
        }
        lemma_without_absent(shorter, c);
        assert(shorter.push(text.last()) =~= text);
    } else {
        assert(without_char(text, c) =~= text);
    }
}

/// A character at the head of a text is taken out like any other.
pub proof fn lemma_without_leading(text: Seq<char>, c: char)
    ensures
        without_char(seq![c] + text, c) == without_char(text, c),
    decreases text.len(),
{
    let all = seq![c] + text;
    if text.len() == 0 {
        assert(all.drop_last() =~= Seq::<char>::empty());
        assert(all.last() == c);
        assert(without_char(all.drop_last(), c) =~= Seq::<char>::empty());
    } else {
        assert(all.drop_last() =~= seq![c] + text.drop_last());
        assert(all.last() == text.last());
        lemma_without_leading(text.drop_last(), c);
    }
}

/// `text` without every occurrence of `c`.
pub open spec fn without_char(text: Seq<char>, c: char) -> Seq<char>
    decreases text.len(),
{
    if text.len() == 0 {
        Seq::empty()
    } else if text.last() == c {
        without_char(text.drop_last(), c)
    } else {
        without_char(text.drop_last(), c).push(text.last())
    }
}

/// The words of a text, each as a string.
pub fn split_words(text: &str) -> (found: Vec<String>)
    ensures
        found.deep_view() == words(text@),
{
    let n: usize = text.unicode_len();
    let mut found: Vec<String> = Vec::new();
    let mut start: usize = 0;
    let mut i: usize = 0;
    assert(found.deep_view() =~= scan(text@.take(0)).done);
    while i < n
        invariant
            n == text@.len(),
            start <= i <= n,
            found.deep_view() == scan(text@.take(i as int)).done,
            text@.subrange(start as int, i as int) == scan(text@.take(i as int)).open,
        decreases n - i,
    {
        let c = text.get_char(i);
        proof {
            let upto = text@.take(i + 1);
            assert(upto.drop_last() =~= text@.take(i as int));
            assert(upto.last() == c);
        }
        if is_whitespace(c) {
            if start < i {
                let ghost before = found.deep_view();
                let word = String::from_str(text.substring_char(start, i));
                found.push(word);
                assert(found.deep_view() =~= before.push(word@));
            }
            start = i + 1;
            assert(text@.subrange(start as int, i + 1) =~= Seq::<char>::empty());
        } else {
            assert(text@.subrange(start as int, i + 1) =~= text@.subrange(
                start as int,
                i as int,
            ).push(c));
        }
        i += 1;
    }
    assert(text@.take(n as int) =~= text@);
    if start < n {
        let ghost before = found.deep_view();
        let word = String::from_str(text.substring_char(start, n));
        found.push(word);
        assert(found.deep_view() =~= before.push(word@));
    }
    found
}

/// Whether `c` stands somewhere in `text`.
pub fn has_char(text: &str, c: char) -> (found: bool)
    ensures
        found == text@.contains(c),
{
    let n: usize = text.unicode_len();
    let mut i: usize = 0;
    while i < n
        invariant
            n == text@.len(),
            i <= n,
            forall|k: int| 0 <= k < i ==> text@[k] != c,
        decreases n - i,
    {
        if text.get_char(i) == c {
            return true;
        }
        i += 1;
    }
    false
}

/// `text` without every occurrence of `c`.
pub fn remove_char(text: &str, c: char) -> (rest: String)
    ensures
        rest@ == without_char(text@, c),
{
    let n: usize = text.unicode_len();
    let mut rest = String::new();
    let mut i: usize = 0;
    assert(text@.take(0) =~= Seq::<char>::empty());
    while i < n
        invariant
            n == text@.len(),
            i <= n,
            rest@ == without_char(text@.take(i as int), c),
        decreases n - i,
    {
        let here = text.get_char(i);
        proof {
            let upto = text@.take(i + 1);
            assert(upto.drop_last() =~= text@.take(i as int));
            assert(upto.last() == here);
        }
        if here != c {
            let ghost before = rest@;
            rest.append(text.substring_char(i, i + 1));
            assert(rest@ =~= before.push(here));
        }
        i += 1;
    }
    assert(text@.take(n as int) =~= text@);
    rest
}

/// The code of a character, that of the small letter for `A` to `Z`.
pub open spec fn ascii_lower(c: char) -> u32 {
    let code = c as u32;
    if 0x41 <= code <= 0x5a {
        (code + 0x20) as u32
    } else {
        code
    }
}

/// Whether two texts are equal when `A` to `Z` count as `a` to `z`.
pub open spec fn same_ignoring_ascii_case(a: Seq<char>, b: Seq<char>) -> bool {
    &&& a.len() == b.len()
    &&& forall|i: int| 0 <= i < a.len() ==> ascii_lower(#[trigger] a[i]) == ascii_lower(b[i])
}

/// The code of a character, that of the small letter for `A` to `Z`.
fn lower_code(c: char) -> (code: u32)
    ensures
        code == ascii_lower(c),
{
    let code: u32 = c as u32;
    if 0x41 <= code && code <= 0x5a {
        code + 0x20
    } else {
        code
    }
}

/// Whether two texts are equal when `A` to `Z` count as `a` to `z`.
pub fn eq_ignoring_ascii_case(a: &str, b: &str) -> (same: bool)
    ensures
        same == same_ignoring_ascii_case(a@, b@),
{
    let n: usize = a.unicode_len();
    if b.unicode_len() != n {
        return false;
    }
    let mut i: usize = 0;
    while i < n
        invariant
            n == a@.len(),
            n == b@.len(),
            i <= n,
            forall|k: int| 0 <= k < i ==> ascii_lower(#[trigger] a@[k]) == ascii_lower(b@[k]),
        decreases n - i,
    {
        if lower_code(a.get_char(i)) != lower_code(b.get_char(i)) {
            return false;
        }
        i += 1;
    }
    true
}

/// `text` with a backslash before every underscore.
pub open spec fn escaped(text: Seq<char>) -> Seq<char>
    decreases text.len(),
{
    if text.len() == 0 {
        Seq::empty()
    } else if text.last() == '_' {
        escaped(text.drop_last()).push('\\').push('_')
    } else {
        escaped(text.drop_last()).push(text.last())
    }
}

/// Puts a backslash before every underscore.
pub fn escape_underscores(text: &str) -> (out: String)
    ensures
        out@ == escaped(text@),
{
    let n: usize = text.unicode_len();
    let mut out = String::new();
    let mut i: usize = 0;
    assert(text@.take(0) =~= Seq::<char>::empty());
    while i < n
        invariant
            n == text@.len(),
            i <= n,
            out@ == escaped(text@.take(i as int)),
        decreases n - i,
    {
        let here = text.get_char(i);
        let ghost before = out@;
        proof {
            let upto = text@.take(i + 1);
            assert(upto.drop_last() =~= text@.take(i as int));
            assert(upto.last() == here);
        }
        if here == '_' {
            proof {
                reveal_strlit("\\_");
            }
            out.append("\\_");
            assert(out@ =~= before.push('\\').push('_'));
        } else {
            out.append(text.substring_char(i, i + 1));
            assert(out@ =~= before.push(here));
        }
        i += 1;
    }
    assert(text@.take(n as int) =~= text@);
    out
}

/// The position of the first `c` in `text`, or the length of `text` where
/// there is none.
pub open spec fn index_of(text: Seq<char>, c: char) -> int
    decreases text.len(),
{
    if text.len() == 0 || text[0] == c {
        0
    } else {
        1 + index_of(text.drop_first(), c)
    }
}

/// `index_of` is the one position before which no `c` stands and at which
/// the text ends or holds `c`.
pub proof fn lemma_index_of(text: Seq<char>, c: char, at: int)
    requires
        0 <= at <= text.len(),
        forall|k: int| 0 <= k < at ==> text[k] != c,
        at == text.len() || text[at] == c,
    ensures
        index_of(text, c) == at,
    decreases text.len(),
{
    if text.len() == 0 || text[0] == c {
    } else {
        let rest = text.drop_first();
        assert forall|k: int| 0 <= k < at - 1 implies rest[k] != c by {
            assert(rest[k] == text[k + 1]);
        }
        lemma_index_of(rest, c, at - 1);
    }
}

/// The position of the first `c` in `text`, or the length of `text` where
/// there is none.
pub fn find_char(text: &str, c: char) -> (at: usize)
    ensures
        at == index_of(text@, c),
        at <= text@.len(),
{
    let n: usize = text.unicode_len();
    let mut i: usize = 0;
    while i < n
        invariant
            n == text@.len(),
            i <= n,
            forall|k: int| 0 <= k < i ==> text@[k] != c,
        decreases n - i,
    {
        if text.get_char(i) == c {
            proof {
                lemma_index_of(text@, c, i as int);
            }
            return i;
        }
        i += 1;
    }
    proof {
        lemma_index_of(text@, c, n as int);
    }
    n
}

} // verus!
