//! Text as the parsers see it: searching a sequence for a class of items,
//! trimming, cutting into words, comparing, and converting between bytes,
//! characters and strings.

use vstd::prelude::*;
use vstd::string::*;
use vstd::utf8::*;

verus! {

/// `i` is where the first item of `s` that lies in `class` stands, or the
/// length of `s` if there is none.
pub open spec fn is_first_in<T>(s: Seq<T>, class: Set<T>, i: int) -> bool {
    &&& 0 <= i <= s.len()
    &&& forall|j: int| 0 <= j < i ==> !class.contains(#[trigger] s[j])
    &&& i < s.len() ==> class.contains(s[i])
}

/// The index of the first item of `s` that lies in `class`; the length of `s`
/// if there is none.
pub open spec fn first_in<T>(s: Seq<T>, class: Set<T>) -> int {
    choose|i: int| is_first_in(s, class, i)
}

/// `first_in` is well defined: some index always qualifies.
pub proof fn lemma_first_in_exists<T>(s: Seq<T>, class: Set<T>)
    ensures
        is_first_in(s, class, first_in(s, class)),
    decreases s.len(),
{
    if s.len() == 0 {
        assert(is_first_in(s, class, 0));
    } else if class.contains(s[0]) {
        assert(is_first_in(s, class, 0));
    } else {
        let t = s.drop_first();
        lemma_first_in_exists(t, class);
        let k = first_in(t, class);
        assert forall|j: int| 0 <= j < k + 1 implies !class.contains(#[trigger] s[j]) by {
            if j > 0 {
                assert(s[j] == t[j - 1]);
            }
        }
        if k + 1 < s.len() {
            assert(s[k + 1] == t[k]);
        }
        assert(is_first_in(s, class, k + 1));
    }
}

/// Only one index qualifies, so showing that `i` does pins `first_in` down.
pub proof fn lemma_first_in_unique<T>(s: Seq<T>, class: Set<T>, i: int)
    requires
        is_first_in(s, class, i),
    ensures
        first_in(s, class) == i,
{
    let k = first_in(s, class);
    assert(is_first_in(s, class, k));
    if k < i {
        assert(!class.contains(s[k]));
    } else if i < k {
        assert(!class.contains(s[i]));
    }
}

/// `e` is where the longest tail of `s` made only of items of `class` begins.
pub open spec fn is_tail_start<T>(s: Seq<T>, class: Set<T>, e: int) -> bool {
    &&& 0 <= e <= s.len()
    &&& forall|j: int| e <= j < s.len() ==> class.contains(#[trigger] s[j])
    &&& e > 0 ==> !class.contains(s[e - 1])
}

/// The index at which the longest tail of `s` made only of items of `class`
/// begins; the length of `s` if its last item is outside `class`.
pub open spec fn tail_start<T>(s: Seq<T>, class: Set<T>) -> int {
    choose|e: int| is_tail_start(s, class, e)
}

/// `tail_start` is well defined: some index always qualifies.
pub proof fn lemma_tail_start_exists<T>(s: Seq<T>, class: Set<T>)
    ensures
        is_tail_start(s, class, tail_start(s, class)),
    decreases s.len(),
{
    if s.len() == 0 {
        assert(is_tail_start(s, class, 0));
    } else if !class.contains(s.last()) {
        assert(is_tail_start(s, class, s.len() as int));
    } else {
        let t = s.drop_last();
        lemma_tail_start_exists(t, class);
        let k = tail_start(t, class);
        assert forall|j: int| k <= j < s.len() implies class.contains(#[trigger] s[j]) by {
            if j < t.len() {
                assert(s[j] == t[j]);
            }
        }
        if k > 0 {
            assert(s[k - 1] == t[k - 1]);
        }
        assert(is_tail_start(s, class, k));
    }
}

/// Only one index qualifies, so showing that `e` does pins `tail_start` down.
pub proof fn lemma_tail_start_unique<T>(s: Seq<T>, class: Set<T>, e: int)
    requires
        is_tail_start(s, class, e),
    ensures
        tail_start(s, class) == e,
{
    let k = tail_start(s, class);
    assert(is_tail_start(s, class, k));
    if k < e {
        assert(class.contains(s[e - 1]));
    } else if e < k {
        assert(class.contains(s[k - 1]));
    }
}

/// Whether `c` is white space as Unicode defines it: one of its twenty-five
/// `White_Space` characters.
pub open spec fn is_whitespace(c: char) -> bool {
    let u = c as u32;
    ||| 0x09 <= u <= 0x0D
    ||| u == 0x20
    ||| u == 0x85
    ||| u == 0xA0
    ||| u == 0x1680
    ||| 0x2000 <= u <= 0x200A
    ||| u == 0x2028
    ||| u == 0x2029
    ||| u == 0x202F
    ||| u == 0x205F
    ||| u == 0x3000
}

/// Whether `c` is one of the five ASCII white space characters: space, tab,
/// line feed, form feed, carriage return.
pub open spec fn is_ascii_whitespace(c: char) -> bool {
    c == ' ' || c == '\t' || c == '\n' || c == '\x0C' || c == '\r'
}

/// The Unicode white space characters.
pub open spec fn whitespace() -> Set<char> {
    Set::new(|c: char| is_whitespace(c))
}

/// The ASCII white space characters.
pub open spec fn ascii_whitespace() -> Set<char> {
    Set::new(|c: char| is_ascii_whitespace(c))
}

/// `s` without the white space at its two ends.
pub open spec fn trim(s: Seq<char>) -> Seq<char> {
    let kept = s.take(tail_start(s, whitespace()));
    kept.skip(first_in(kept, whitespace().complement()))
}

/// `s` cut into its words: the longest runs of characters that are not ASCII
/// white space, in order.
pub open spec fn words(s: Seq<char>) -> Seq<Seq<char>>
    decreases s.len(),
    via words_decreases
{
    let rest = s.skip(first_in(s, ascii_whitespace().complement()));
    if rest.len() == 0 {
        Seq::empty()
    } else {
        let n = first_in(rest, ascii_whitespace());
        seq![rest.take(n)] + words(rest.skip(n))
    }
}

#[via_fn]
proof fn words_decreases(s: Seq<char>) {
    lemma_first_in_exists(s, ascii_whitespace().complement());
    let rest = s.skip(first_in(s, ascii_whitespace().complement()));
    if rest.len() != 0 {
        lemma_first_in_exists(rest, ascii_whitespace());
        assert(!ascii_whitespace().contains(rest[0]));
    }
}

/// `text` without the line ending that closes it: a line feed, and the
/// carriage return before it if there is one.
pub open spec fn strip_line_ending(text: Seq<char>) -> Seq<char> {
    if text.len() > 0 && text.last() == '\n' {
        let body = text.drop_last();
        if body.len() > 0 && body.last() == '\r' {
            body.drop_last()
        } else {
            body
        }
    } else {
        text
    }
}

/// Whether `c` is Unicode white space.
pub fn is_whitespace_char(c: char) -> (yes: bool)
    ensures
        yes == is_whitespace(c),
{
    let u: u32 = c as u32;
    (0x09 <= u && u <= 0x0D) || u == 0x20 || u == 0x85 || u == 0xA0 || u == 0x1680 || (0x2000 <= u
        && u <= 0x200A) || u == 0x2028 || u == 0x2029 || u == 0x202F || u == 0x205F || u == 0x3000
}

/// Whether `c` is ASCII white space.
pub fn is_ascii_whitespace_char(c: char) -> (yes: bool)
    ensures
        yes == is_ascii_whitespace(c),
{
    c == ' ' || c == '\t' || c == '\n' || c == '\x0C' || c == '\r'
}

/// The characters of `s`.
pub fn chars_of(s: &str) -> (chars: Vec<char>)
    ensures
        chars@ == s@,
{
    let mut chars: Vec<char> = Vec::new();
    for c in it: s.chars()
        invariant
            chars@ == it.seq().take(it.index() as int),
            it.seq() == s@,
    {
        chars.push(c);
    }
    chars
}

/// Reads `bytes` as UTF-8 through `String::from_utf8`: there is a text exactly
/// when the bytes are well-formed UTF-8, and it holds the characters they
/// encode.
#[verifier::external_body]
pub(crate) fn decode(bytes: Vec<u8>) -> (text: Option<String>)
    ensures
        text is Some <==> valid_utf8(bytes@),
        text is Some ==> text->Some_0@ == decode_utf8(bytes@),
{
    String::from_utf8(bytes).ok()
}

/// `text` in small letters, as `str::to_lowercase` gives it.
pub uninterp spec fn lowercased(text: Seq<char>) -> Seq<char>;

/// Puts `text` in small letters through `str::to_lowercase`. The result is
/// `lowercased` of the text; nothing else is claimed of it.
#[verifier::external_body]
pub(crate) fn to_lowercase(text: &str) -> (lower: String)
    ensures
        lower@ == lowercased(text@),
{
    text.to_lowercase()
}

/// Where in `chars[lo..hi]` the character `c` first stands, or `hi`.
pub(crate) fn find_char(chars: &Vec<char>, lo: usize, hi: usize, c: char) -> (at: usize)
    requires
        lo <= hi <= chars.len(),
    ensures
        lo <= at <= hi,
        at - lo == first_in(chars@.subrange(lo as int, hi as int), set![c]),
{
    let mut at: usize = lo;
    while at < hi && chars[at] != c
        invariant
            lo <= at <= hi <= chars.len(),
            forall|j: int| lo <= j < at ==> chars@[j] != c,
        decreases hi - at,
    {
        at = at + 1;
    }
    proof {
        let s = chars@.subrange(lo as int, hi as int);
        assert(is_first_in(s, set![c], at - lo));
        lemma_first_in_unique(s, set![c], at - lo);
    }
    at
}

/// The bounds of `chars[lo..hi]` once the white space at its two ends is left
/// out.
pub(crate) fn trim_bounds(chars: &Vec<char>, lo: usize, hi: usize) -> (bounds: (usize, usize))
    requires
        lo <= hi <= chars.len(),
    ensures
        lo <= bounds.0 <= bounds.1 <= hi,
        chars@.subrange(bounds.0 as int, bounds.1 as int) == trim(
            chars@.subrange(lo as int, hi as int),
        ),
{
    let mut end: usize = hi;
    while end > lo && is_whitespace_char(chars[end - 1])
        invariant
            lo <= end <= hi <= chars.len(),
            forall|j: int| end <= j < hi ==> is_whitespace(chars@[j]),
        decreases end,
    {
        end = end - 1;
    }
    let mut start: usize = lo;
    while start < end && is_whitespace_char(chars[start])
        invariant
            lo <= start <= end <= chars.len(),
            forall|j: int| lo <= j < start ==> is_whitespace(chars@[j]),
        decreases end - start,
    {
        start = start + 1;
    }
    proof {
        let s = chars@.subrange(lo as int, hi as int);
        assert(is_tail_start(s, whitespace(), end - lo));
        lemma_tail_start_unique(s, whitespace(), end - lo);
        let kept = s.take(end - lo);
        assert(is_first_in(kept, whitespace().complement(), start - lo));
        lemma_first_in_unique(kept, whitespace().complement(), start - lo);
        assert(kept.skip(start - lo) =~= chars@.subrange(start as int, end as int));
    }
    (start, end)
}

/// Whether `a` and `b` are the same text.
pub fn same_text(a: &str, b: &str) -> (same: bool)
    ensures
        same == (a@ == b@),
{
    let chars = chars_of(a);
    assert(chars@.subrange(0, chars.len() as int) =~= chars@);
    matches_text(&chars, 0, chars.len(), b)
}

/// Whether `chars[lo..hi]` is the text `text`.
pub(crate) fn matches_text(chars: &Vec<char>, lo: usize, hi: usize, text: &str) -> (same: bool)
    requires
        lo <= hi <= chars.len(),
    ensures
        same == (chars@.subrange(lo as int, hi as int) == text@),
{
    let other = chars_of(text);
    if other.len() != hi - lo {
        return false;
    }
    let mut i: usize = 0;
    while i < other.len()
        invariant
            lo <= hi <= chars.len(),
            other.len() == hi - lo,
            other@ == text@,
            0 <= i <= other.len(),
            forall|j: int| 0 <= j < i ==> chars@[lo + j] == other@[j],
        decreases other.len() - i,
    {
        if chars[lo + i] != other[i] {
            assert(chars@.subrange(lo as int, hi as int)[i as int] != text@[i as int]);
            return false;
        }
        i = i + 1;
    }
    assert(chars@.subrange(lo as int, hi as int) =~= text@);
    true
}

/// A text that neither begins nor ends with white space stays as it is when
/// it is trimmed, and white space after it is trimmed away.
pub proof fn lemma_trim_bare(core: Seq<char>, tail: Seq<char>)
    requires
        core.len() > 0 ==> !is_whitespace(core[0]) && !is_whitespace(core.last()),
        forall|i: int| 0 <= i < tail.len() ==> is_whitespace(#[trigger] tail[i]),
    ensures
        trim(core + tail) == core,
{
    let s = core + tail;
    let n = core.len() as int;
    assert forall|j: int| n <= j < s.len() implies whitespace().contains(#[trigger] s[j]) by {
        assert(s[j] == tail[j - n]);
    }
    if n > 0 {
        assert(s[n - 1] == core.last());
    }
    assert(is_tail_start(s, whitespace(), n));
    lemma_tail_start_unique(s, whitespace(), n);
    let kept = s.take(n);
    assert(kept =~= core);
    assert(is_first_in(core, whitespace().complement(), 0));
    lemma_first_in_unique(core, whitespace().complement(), 0);
    assert(core.skip(0) =~= core);
}

/// The bounds of the first word of `chars` at or after `from`: where it
/// begins, and where the white space after it begins. Both are the length of
/// `chars` where no word is left.
pub(crate) fn next_word(chars: &Vec<char>, from: usize) -> (bounds: (usize, usize))
    requires
        from <= chars.len(),
    ensures
        from <= bounds.0 <= bounds.1 <= chars.len(),
        bounds.0 - from == first_in(chars@.skip(from as int), ascii_whitespace().complement()),
        bounds.1 - bounds.0 == first_in(chars@.skip(bounds.0 as int), ascii_whitespace()),
        bounds.0 < chars.len() ==> bounds.0 < bounds.1,
{
    let mut start: usize = from;
    while start < chars.len() && is_ascii_whitespace_char(chars[start])
        invariant
            from <= start <= chars.len(),
            forall|j: int| from <= j < start ==> is_ascii_whitespace(chars@[j]),
        decreases chars.len() - start,
    {
        start = start + 1;
    }
    let mut end: usize = start;
    while end < chars.len() && !is_ascii_whitespace_char(chars[end])
        invariant
            start <= end <= chars.len(),
            forall|j: int| start <= j < end ==> !is_ascii_whitespace(chars@[j]),
        decreases chars.len() - end,
    {
        end = end + 1;
    }
    proof {
        let tail = chars@.skip(from as int);
        assert(is_first_in(tail, ascii_whitespace().complement(), start - from));
        lemma_first_in_unique(tail, ascii_whitespace().complement(), start - from);
        let rest = chars@.skip(start as int);
        assert(is_first_in(rest, ascii_whitespace(), end - start));
        lemma_first_in_unique(rest, ascii_whitespace(), end - start);
    }
    (start, end)
}

/// The bounds of the words of `chars`, in order.
pub(crate) fn split_words(chars: &Vec<char>) -> (bounds: Vec<(usize, usize)>)
    ensures
        bounds.len() == words(chars@).len(),
        forall|i: int|
            0 <= i < bounds.len() ==> {
                &&& (#[trigger] bounds[i]).0 <= bounds[i].1 <= chars.len()
                &&& words(chars@)[i] == chars@.subrange(bounds[i].0 as int, bounds[i].1 as int)
            },
{
    let mut bounds: Vec<(usize, usize)> = Vec::new();
    let mut from: usize = 0;
    let ghost mut found: Seq<Seq<char>> = Seq::empty();
    assert(chars@.skip(0) =~= chars@);
    loop
        invariant_except_break
            from <= chars.len(),
            found + words(chars@.skip(from as int)) == words(chars@),
            bounds.len() == found.len(),
            forall|i: int|
                0 <= i < bounds.len() ==> {
                    &&& (#[trigger] bounds[i]).0 <= bounds[i].1 <= chars.len()
                    &&& found[i] == chars@.subrange(bounds[i].0 as int, bounds[i].1 as int)
                },
        ensures
            found == words(chars@),
            bounds.len() == found.len(),
            forall|i: int|
                0 <= i < bounds.len() ==> {
                    &&& (#[trigger] bounds[i]).0 <= bounds[i].1 <= chars.len()
                    &&& found[i] == chars@.subrange(bounds[i].0 as int, bounds[i].1 as int)
                },
        decreases chars.len() - from,
    {
        let (start, end) = next_word(chars, from);
        let ghost tail = chars@.skip(from as int);
        let ghost rest = tail.skip(start - from);
        assert(rest =~= chars@.skip(start as int));
        if start == chars.len() {
            proof {
                assert(words(tail) =~= Seq::<Seq<char>>::empty());
                assert(found + words(tail) =~= found);
            }
            break ;
        }
        proof {
            let word = chars@.subrange(start as int, end as int);
            assert(rest.take(end - start) =~= word);
            assert(rest.skip(end - start) =~= chars@.skip(end as int));
            assert(words(tail) == seq![word] + words(chars@.skip(end as int)));
            assert(found.push(word) + words(chars@.skip(end as int)) =~= found + words(tail));
            found = found.push(word);
        }
        bounds.push((start, end));
        from = end;
    }
    bounds
}

/// `text` without the line ending that closes it.
pub fn without_line_ending(text: &str) -> (line: String)
    ensures
        line@ == strip_line_ending(text@),
{
    let chars = chars_of(text);
    let mut end: usize = chars.len();
    if end > 0 && chars[end - 1] == '\n' {
        end = end - 1;
        if end > 0 && chars[end - 1] == '\r' {
            end = end - 1;
        }
    }
    proof {
        let body = text@.drop_last();
        if text@.len() > 0 && text@.last() == '\n' {
            if body.len() > 0 && body.last() == '\r' {
                assert(body.drop_last() =~= text@.subrange(0, end as int));
            } else {
                assert(body =~= text@.subrange(0, end as int));
            }
        } else {
            assert(text@ =~= text@.subrange(0, end as int));
        }
    }
    text.substring_char(0, end).to_owned()
}

/// Whether `s` can stand as one word: it is not empty and holds no ASCII
/// white space.
pub open spec fn is_word(s: Seq<char>) -> bool {
    &&& s.len() > 0
    &&& forall|i: int| 0 <= i < s.len() ==> !is_ascii_whitespace(#[trigger] s[i])
}

/// A word at the front of a text is its first word, as long as the text ends
/// with it or goes on with white space.
pub proof fn lemma_words_first(word: Seq<char>, rest: Seq<char>)
    requires
        is_word(word),
        rest.len() > 0 ==> is_ascii_whitespace(rest[0]),
    ensures
        words(word + rest) == seq![word] + words(rest),
{
    let s = word + rest;
    assert(!is_ascii_whitespace(word[0]));
    assert(is_first_in(s, ascii_whitespace().complement(), 0));
    lemma_first_in_unique(s, ascii_whitespace().complement(), 0);
    assert(s.skip(0) =~= s);
    assert forall|j: int| 0 <= j < word.len() implies !ascii_whitespace().contains(
        #[trigger] s[j],
    ) by {
        assert(s[j] == word[j]);
    }
    assert(is_first_in(s, ascii_whitespace(), word.len() as int));
    lemma_first_in_unique(s, ascii_whitespace(), word.len() as int);
    assert(s.take(word.len() as int) =~= word);
    assert(s.skip(word.len() as int) =~= rest);
}

/// White space at the front of a text adds no word.
pub proof fn lemma_words_skip(space: char, rest: Seq<char>)
    requires
        is_ascii_whitespace(space),
    ensures
        words(seq![space] + rest) == words(rest),
{
    let s = seq![space] + rest;
    lemma_first_in_exists(rest, ascii_whitespace().complement());
    let k = first_in(rest, ascii_whitespace().complement());
    assert forall|j: int| 0 <= j < k + 1 implies !ascii_whitespace().complement().contains(
        #[trigger] s[j],
    ) by {
        if j > 0 {
            assert(s[j] == rest[j - 1]);
        }
    }
    if k < rest.len() {
        assert(s[k + 1] == rest[k]);
    }
    assert(is_first_in(s, ascii_whitespace().complement(), k + 1));
    lemma_first_in_unique(s, ascii_whitespace().complement(), k + 1);
    assert(s.skip(k + 1) =~= rest.skip(k));
}

/// Three words with one space between them are the three words of the text.
pub proof fn lemma_three_words(a: Seq<char>, b: Seq<char>, c: Seq<char>)
    requires
        is_word(a),
        is_word(b),
        is_word(c),
    ensures
        words(a + seq![' '] + b + seq![' '] + c) == seq![a, b, c],
{
    let none = Seq::<char>::empty();
    lemma_first_in_exists(none, ascii_whitespace().complement());
    assert(words(none) =~= Seq::<Seq<char>>::empty());
    lemma_words_first(c, none);
    assert(c + none =~= c);
    lemma_words_skip(' ', c);
    lemma_words_first(b, seq![' '] + c);
    lemma_words_skip(' ', b + (seq![' '] + c));
    lemma_words_first(a, seq![' '] + (b + (seq![' '] + c)));
    assert(a + (seq![' '] + (b + (seq![' '] + c))) =~= a + seq![' '] + b + seq![' '] + c);
    assert(seq![a] + (seq![b] + (seq![c] + Seq::<Seq<char>>::empty())) =~= seq![a, b, c]);
}

} // verus!
