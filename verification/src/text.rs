//! Text: building it, searching it and taking it apart.
use vstd::prelude::*;

verus! {

/// `String::push` appends one character.
pub assume_specification[ String::push ](text: &mut String, c: char)
    ensures
        final(text)@ == old(text)@.push(c),
;

/// Whether a character has the Unicode property `White_Space`: tab to carriage return,
/// space, next line, the spaces of the general punctuation and of some scripts, and the
/// separators of lines and paragraphs.
pub open spec fn white_space(c: char) -> bool {
    ||| '\u{9}' <= c <= '\u{d}'
    ||| c == '\u{20}' || c == '\u{85}' || c == '\u{a0}' || c == '\u{1680}'
    ||| '\u{2000}' <= c <= '\u{200a}'
    ||| c == '\u{2028}' || c == '\u{2029}' || c == '\u{202f}' || c == '\u{205f}'
    ||| c == '\u{3000}'
}

/// `char::is_whitespace` tells whether a character has the property `White_Space`.
pub assume_specification[ char::is_whitespace ](c: char) -> (r: bool)
    ensures
        r == white_space(c),
;

/// What `str::to_lowercase` makes of a text.
pub uninterp spec fn lowercased(text: Seq<char>) -> Seq<char>;

/// Calls `str::to_lowercase`. The claim is only that the result is determined
/// by the characters of the text.
#[verifier::external_body]
pub(crate) fn lowercase(text: &str) -> (r: String)
    ensures
        r@ == lowercased(text@),
{
    text.to_lowercase()
}

/// The decimal digit `d`.
pub open spec fn digit_char(d: int) -> char {
    if d == 0 {
        '0'
    } else if d == 1 {
        '1'
    } else if d == 2 {
        '2'
    } else if d == 3 {
        '3'
    } else if d == 4 {
        '4'
    } else if d == 5 {
        '5'
    } else if d == 6 {
        '6'
    } else if d == 7 {
        '7'
    } else if d == 8 {
        '8'
    } else {
        '9'
    }
}

/// A natural number in decimal notation.
pub open spec fn digits(n: nat) -> Seq<char>
    decreases n,
{
    if n < 10 {
        seq![digit_char(n as int)]
    } else {
        digits(n / 10).push(digit_char((n % 10) as int))
    }
}

/// An integer in decimal notation.
pub open spec fn integer_digits(n: int) -> Seq<char> {
    if n < 0 {
        seq!['-'] + digits((-n) as nat)
    } else {
        digits(n as nat)
    }
}

/// Whether `needle` occurs in `text` without a gap.
pub open spec fn occurs(text: Seq<char>, needle: Seq<char>) -> bool {
    exists|at: int| #[trigger] occurs_at(text, needle, at)
}

/// Whether `needle` occurs in `text` from position `at` on.
pub open spec fn occurs_at(text: Seq<char>, needle: Seq<char>, at: int) -> bool {
    0 <= at && at + needle.len() <= text.len() && text.subrange(at, at + needle.len()) == needle
}

/// The texts in order, with `separator` between each two.
pub open spec fn join(texts: Seq<Seq<char>>, separator: Seq<char>) -> Seq<char>
    decreases texts.len(),
{
    if texts.len() == 0 {
        Seq::empty()
    } else if texts.len() == 1 {
        texts[0]
    } else {
        join(texts.drop_last(), separator) + separator + texts.last()
    }
}

/// The pieces between the separators: one more than there are separators.
pub open spec fn split(text: Seq<char>, separator: char) -> Seq<Seq<char>>
    decreases text.len(),
{
    if text.len() == 0 {
        seq![Seq::empty()]
    } else {
        let front = split(text.drop_last(), separator);
        if text.last() == separator {
            front.push(Seq::empty())
        } else {
            front.drop_last().push(front.last().push(text.last()))
        }
    }
}

/// The text without the white space before it.
pub open spec fn trim_front(text: Seq<char>) -> Seq<char>
    decreases text.len(),
{
    if text.len() > 0 && white_space(text[0]) {
        trim_front(text.drop_first())
    } else {
        text
    }
}

/// The text without the white space behind it.
pub open spec fn trim_back(text: Seq<char>) -> Seq<char>
    decreases text.len(),
{
    if text.len() > 0 && white_space(text.last()) {
        trim_back(text.drop_last())
    } else {
        text
    }
}

/// The text without the white space around it.
pub open spec fn trimmed(text: Seq<char>) -> Seq<char> {
    trim_back(trim_front(text))
}

/// The first place at which a text stands in a list.
pub open spec fn first_place(texts: Seq<Seq<char>>, wanted: Seq<char>) -> Option<int>
    decreases texts.len(),
{
    if texts.len() == 0 {
        None
    } else {
        match first_place(texts.drop_last(), wanted) {
            Some(i) => Some(i),
            None => if texts.last() == wanted {
                Some(texts.len() - 1)
            } else {
                None
            },
        }
    }
}

/// What the first place is: the text stands there, and nowhere before; and where
/// there is none, the text is not in the list.
pub proof fn lemma_first_place(texts: Seq<Seq<char>>, wanted: Seq<char>)
    ensures
        first_place(texts, wanted) is Some <==> texts.contains(wanted),
        first_place(texts, wanted) matches Some(i) ==> 0 <= i < texts.len() && texts[i] == wanted
            && forall|j: int| 0 <= j < i ==> texts[j] != wanted,
    decreases texts.len(),
{
    if texts.len() > 0 {
        let front = texts.drop_last();
        lemma_first_place(front, wanted);
        if texts.contains(wanted) {
            let k = texts.index_of(wanted);
            if k < front.len() {
                assert(front[k] == wanted);
            }
        }
        if front.contains(wanted) {
            assert(texts[front.index_of(wanted)] == wanted);
        }
        assert forall|j: int| 0 <= j < front.len() && !front.contains(wanted) implies texts[j]
            != wanted by {
            assert(front[j] == texts[j]);
        }
        if let Some(i) = first_place(front, wanted) {
            assert(texts[i] == front[i]);
            assert forall|j: int| 0 <= j < i implies texts[j] != wanted by {
                assert(front[j] == texts[j]);
            }
        }
        assert(texts.last() == wanted ==> texts.contains(wanted)) by {
            assert(texts[texts.len() - 1] == texts.last());
        }
    }
}

/// A text that does not stand before a place, but at it, is first there.
pub proof fn lemma_first_place_is(texts: Seq<Seq<char>>, wanted: Seq<char>, i: int)
    requires
        0 <= i < texts.len(),
        texts[i] == wanted,
        forall|j: int| 0 <= j < i ==> texts[j] != wanted,
    ensures
        first_place(texts, wanted) == Some(i),
{
    lemma_first_place(texts, wanted);
    assert(texts.contains(wanted));
}

/// The views of a list of strings.
pub open spec fn views(texts: Seq<String>) -> Seq<Seq<char>> {
    texts.map_values(|s: String| s@)
}

/// An owned copy of a text.
pub(crate) fn copy_text(text: &str) -> (r: String)
    ensures
        r@ == text@,
{
    text.to_owned()
}

/// The characters of a text.
pub(crate) fn characters(text: &str) -> (r: Vec<char>)
    ensures
        r@ == text@,
{
    let mut out: Vec<char> = Vec::new();
    for c in it: text.chars()
        invariant
            it.seq() == text@,
            out@ == text@.take(it.index()),
    {
        out.push(c);
        assert(out@ =~= text@.take(it.index() + 1));
    }
    assert(text@.take(text@.len() as int) =~= text@);
    out
}

pub(crate) fn digit(d: u8) -> (c: char)
    requires
        d < 10,
    ensures
        c == digit_char(d as int),
{
    if d == 0 {
        '0'
    } else if d == 1 {
        '1'
    } else if d == 2 {
        '2'
    } else if d == 3 {
        '3'
    } else if d == 4 {
        '4'
    } else if d == 5 {
        '5'
    } else if d == 6 {
        '6'
    } else if d == 7 {
        '7'
    } else if d == 8 {
        '8'
    } else {
        '9'
    }
}

/// Writes a natural number in decimal notation.
pub fn natural_text(n: u128) -> (r: String)
    ensures
        r@ == digits(n as nat),
    decreases n,
{
    let last: u8 = (n % 10) as u8;
    let mut out = if n < 10 {
        String::new()
    } else {
        natural_text(n / 10)
    };
    out.push(digit(last));
    assert(out@ =~= digits(n as nat));
    out
}

/// Writes an integer in decimal notation.
pub fn integer_text(n: i128) -> (r: String)
    ensures
        r@ == integer_digits(n as int),
{
    if n < 0 {
        let mut out = copy_text("-");
        proof {
            reveal_strlit("-");
        }
        let size: u128 = (0 - (n + 1)) as u128 + 1;
        let tail = natural_text(size);
        out.append(tail.as_str());
        assert(out@ =~= seq!['-'] + digits(size as nat));
        out
    } else {
        natural_text(n as u128)
    }
}

/// A letter of the ASCII alphabet in lower case; any other character as it is.
pub open spec fn folded_char(c: char) -> char {
    if 'A' <= c && c <= 'Z' {
        ((c as u8) + 32) as char
    } else {
        c
    }
}

/// A text with the letters of the ASCII alphabet in lower case.
pub open spec fn folded(text: Seq<char>) -> Seq<char> {
    text.map_values(|c: char| folded_char(c))
}

/// Puts the letters of the ASCII alphabet in lower case.
pub fn fold_text(text: &str) -> (r: String)
    ensures
        r@ == folded(text@),
{
    let chars = characters(text);
    let mut out = String::new();
    let mut i: usize = 0;
    assert(out@ =~= folded(text@).take(0));
    while i < chars.len()
        invariant
            i <= chars@.len(),
            chars@ == text@,
            out@ == folded(text@).take(i as int),
        decreases chars@.len() - i,
    {
        let c = chars[i];
        if 'A' <= c && c <= 'Z' {
            out.push(((c as u8) + 32) as char);
        } else {
            out.push(c);
        }
        i = i + 1;
        assert(out@ =~= folded(text@).take(i as int));
    }
    assert(folded(text@).take(i as int) =~= folded(text@));
    out
}

/// Whether two texts have the same characters.
pub(crate) fn same_text(a: &str, b: &str) -> (r: bool)
    ensures
        r == (a@ == b@),
{
    let left = copy_text(a);
    let right = copy_text(b);
    left == right
}

/// Whether `needle` occurs in the characters of a text.
pub(crate) fn contains_chars(text: &Vec<char>, needle: &str) -> (r: bool)
    ensures
        r == occurs(text@, needle@),
{
    let wanted = characters(needle);
    if wanted.len() > text.len() {
        assert(forall|at: int| !occurs_at(text@, needle@, at));
        return false;
    }
    let size: usize = text.len();
    let last: usize = size - wanted.len();
    let mut at: usize = 0;
    while at <= last
        invariant
            wanted@ == needle@,
            size == text@.len(),
            last + wanted@.len() == size,
            at <= last + 1,
            forall|k: int| 0 <= k < at ==> !occurs_at(text@, needle@, k),
        decreases last + 1 - at,
    {
        let mut k: usize = 0;
        while k < wanted.len() && text[at + k] == wanted[k]
            invariant
                wanted@ == needle@,
                at <= last,
                size == text@.len(),
                last + wanted@.len() == size,
                k <= wanted@.len(),
                forall|j: int| 0 <= j < k ==> text@[at + j] == wanted@[j],
            decreases wanted@.len() - k,
        {
            k = k + 1;
        }
        if k == wanted.len() {
            assert(text@.subrange(at as int, at + needle@.len()) =~= needle@);
            assert(occurs_at(text@, needle@, at as int));
            return true;
        }
        assert(!occurs_at(text@, needle@, at as int)) by {
            if occurs_at(text@, needle@, at as int) {
                assert(text@.subrange(at as int, at + needle@.len())[k as int]
                    == needle@[k as int]);
            }
        }
        if at == last {
            assert(forall|j: int| !occurs_at(text@, needle@, j));
            return false;
        }
        at = at + 1;
    }
    false
}

/// Whether `needle` occurs in `text`.
pub fn contains(text: &str, needle: &str) -> (r: bool)
    ensures
        r == occurs(text@, needle@),
{
    contains_chars(&characters(text), needle)
}

/// Puts the texts together with `separator` between each two.
pub fn join_texts(texts: &Vec<String>, separator: &str) -> (r: String)
    ensures
        r@ == join(views(texts@), separator@),
{
    let mut out = String::new();
    let mut i: usize = 0;
    while i < texts.len()
        invariant
            i <= texts@.len(),
            out@ == join(views(texts@).take(i as int), separator@),
        decreases texts@.len() - i,
    {
        let ghost before = views(texts@).take(i as int);
        let ghost after = views(texts@).take(i + 1);
        assert(after.drop_last() =~= before);
        if i > 0 {
            out.append(separator);
        }
        out.append(texts[i].as_str());
        assert(out@ =~= join(after, separator@));
        i = i + 1;
    }
    assert(views(texts@).take(i as int) =~= views(texts@));
    out
}

/// The pieces of a text between the separators.
pub fn split_text(text: &str, separator: char) -> (r: Vec<String>)
    ensures
        views(r@) == split(text@, separator),
{
    let mut pieces: Vec<String> = Vec::new();
    let mut piece = String::new();
    let chars = characters(text);
    let mut i: usize = 0;
    proof {
        assert(views(pieces@).push(piece@) =~= split(text@.take(0), separator));
    }
    while i < chars.len()
        invariant
            chars@ == text@,
            i <= chars@.len(),
            views(pieces@).push(piece@) == split(text@.take(i as int), separator),
        decreases chars@.len() - i,
    {
        let ghost front = split(text@.take(i as int), separator);
        assert(text@.take(i + 1).drop_last() =~= text@.take(i as int));
        assert(front.drop_last() =~= views(pieces@));
        assert(front.last() == piece@);
        let c = chars[i];
        if c == separator {
            let ghost old_pieces = pieces@;
            pieces.push(piece);
            piece = String::new();
            assert(views(pieces@) =~= front);
        } else {
            piece.push(c);
        }
        assert(views(pieces@).push(piece@) =~= split(text@.take(i + 1), separator));
        i = i + 1;
    }
    assert(text@.take(i as int) =~= text@);
    pieces.push(piece);
    assert(views(pieces@) =~= split(text@, separator));
    pieces
}

proof fn lemma_trim_front_skips(text: Seq<char>, k: int)
    requires
        0 <= k <= text.len(),
        forall|j: int| 0 <= j < k ==> white_space(#[trigger] text[j]),
    ensures
        trim_front(text) == trim_front(text.skip(k)),
    decreases k,
{
    if k == 0 {
        assert(text.skip(0) =~= text);
    } else {
        lemma_trim_front_skips(text.drop_first(), k - 1);
        assert(text.drop_first().skip(k - 1) =~= text.skip(k));
    }
}

proof fn lemma_trim_back_skips(text: Seq<char>, k: int)
    requires
        0 <= k <= text.len(),
        forall|j: int| k <= j < text.len() ==> white_space(#[trigger] text[j]),
    ensures
        trim_back(text) == trim_back(text.take(k)),
    decreases text.len() - k,
{
    if k == text.len() {
        assert(text.take(k) =~= text);
    } else {
        lemma_trim_back_skips(text.drop_last(), k);
        assert(text.drop_last().take(k) =~= text.take(k));
    }
}

/// The text without the white space around it.
pub fn trim_text(text: &str) -> (r: String)
    ensures
        r@ == trimmed(text@),
{
    let chars = characters(text);
    let mut from: usize = 0;
    while from < chars.len() && chars[from].is_whitespace()
        invariant
            from <= chars@.len(),
            forall|j: int| 0 <= j < from ==> white_space(#[trigger] chars@[j]),
        decreases chars@.len() - from,
    {
        from = from + 1;
    }
    let mut to: usize = chars.len();
    while to > from && chars[to - 1].is_whitespace()
        invariant
            from <= to <= chars@.len(),
            forall|j: int| to <= j < chars@.len() ==> white_space(#[trigger] chars@[j]),
        decreases to,
    {
        to = to - 1;
    }
    proof {
        lemma_trim_front_skips(chars@, from as int);
        let rest = chars@.skip(from as int);
        assert(trim_front(rest) == rest);
        assert forall|j: int| to - from <= j < rest.len() implies white_space(
            #[trigger] rest[j],
        ) by {
            assert(rest[j] == chars@[from + j]);
        }
        lemma_trim_back_skips(rest, to - from);
        assert(rest.take(to - from) =~= chars@.subrange(from as int, to as int));
    }
    let mut out = String::new();
    let mut i: usize = from;
    while i < to
        invariant
            from <= i <= to <= chars@.len(),
            out@ == chars@.subrange(from as int, i as int),
        decreases to - i,
    {
        out.push(chars[i]);
        assert(out@ =~= chars@.subrange(from as int, i + 1));
        i = i + 1;
    }
    out
}

/// The pieces that are not empty, without the white space around them.
pub open spec fn trimmed_pieces(pieces: Seq<Seq<char>>) -> Seq<Seq<char>>
    decreases pieces.len(),
{
    if pieces.len() == 0 {
        Seq::empty()
    } else {
        let before = trimmed_pieces(pieces.drop_last());
        if pieces.last().len() == 0 {
            before
        } else {
            before.push(trimmed(pieces.last()))
        }
    }
}

/// The pieces of a text between the separators, as far as they are not empty, without the
/// white space around them.
pub fn trimmed_list(text: &str, separator: char) -> (r: Vec<String>)
    ensures
        views(r@) == trimmed_pieces(split(text@, separator)),
{
    let pieces = split_text(text, separator);
    let ghost all = views(pieces@);
    let mut out: Vec<String> = Vec::new();
    let mut i: usize = 0;
    assert(views(out@) =~= trimmed_pieces(all.take(0)));
    while i < pieces.len()
        invariant
            i <= pieces@.len(),
            all == views(pieces@),
            views(out@) == trimmed_pieces(all.take(i as int)),
        decreases pieces@.len() - i,
    {
        assert(all.take(i + 1).drop_last() =~= all.take(i as int));
        assert(all.take(i + 1).last() == pieces@[i as int]@);
        if characters(pieces[i].as_str()).len() > 0 {
            let ghost before = views(out@);
            let piece = trim_text(pieces[i].as_str());
            let ghost name = piece@;
            out.push(piece);
            assert(views(out@) =~= before.push(name));
        }
        i = i + 1;
    }
    assert(all.take(i as int) =~= all);
    out
}

/// A text is found in any longer one that holds it, whatever stands before and behind it,
/// and one that is longer than another is not found in it.
pub proof fn law_texts_are_found_wherever_they_stand(
    before: Seq<char>,
    text: Seq<char>,
    behind: Seq<char>,
)
    ensures
        occurs(before + text + behind, text),
        behind.len() < text.len() ==> !occurs(behind, text),
{
    let all = before + text + behind;
    assert(all.subrange(before.len() as int, (before.len() + text.len()) as int) =~= text);
    assert(occurs_at(all, text, before.len() as int));
}

proof fn lemma_split_in_parts(a: Seq<char>, b: Seq<char>, separator: char)
    ensures
        split(b, separator).len() > 0,
        split(a + seq![separator] + b, separator) == split(a, separator) + split(b, separator),
    decreases b.len(),
{
    let all = a + seq![separator] + b;
    if b.len() == 0 {
        assert(all.drop_last() =~= a);
        assert(split(all, separator) =~= split(a, separator) + split(b, separator));
    } else {
        lemma_split_in_parts(a, b.drop_last(), separator);
        assert(all.drop_last() =~= a + seq![separator] + b.drop_last());
        assert(split(all, separator) =~= split(a, separator) + split(b, separator));
    }
}

proof fn lemma_one_piece(text: Seq<char>, separator: char)
    requires
        !text.contains(separator),
    ensures
        split(text, separator) == seq![text],
    decreases text.len(),
{
    if text.len() > 0 {
        let front = text.drop_last();
        if front.contains(separator) {
            let i = front.index_of(separator);
            assert(text[i] == separator);
        }
        lemma_one_piece(front, separator);
        assert(text[text.len() - 1] == text.last());
        assert(front.push(text.last()) =~= text);
        assert(split(text, separator) =~= seq![text]);
    } else {
        assert(text =~= Seq::<char>::empty());
    }
}

/// Texts that are joined by a separator which none of them holds come apart again.
pub proof fn law_joined_texts_come_apart(texts: Seq<Seq<char>>, separator: char)
    requires
        texts.len() > 0,
        forall|i: int| 0 <= i < texts.len() ==> !(#[trigger] texts[i]).contains(separator),
    ensures
        split(join(texts, seq![separator]), separator) == texts,
    decreases texts.len(),
{
    let last = texts.len() - 1;
    assert(!texts[last].contains(separator));
    lemma_one_piece(texts[last], separator);
    if texts.len() == 1 {
        assert(seq![texts[0]] =~= texts);
    } else {
        let front = texts.drop_last();
        assert forall|i: int| 0 <= i < front.len() implies !(#[trigger] front[i]).contains(
            separator,
        ) by {
            assert(front[i] == texts[i]);
        }
        law_joined_texts_come_apart(front, separator);
        lemma_split_in_parts(join(front, seq![separator]), texts[last], separator);
        assert(front + seq![texts[last]] =~= texts);
    }
}

/// Trimming takes away white space alone, and all of it at both ends: what is left stands in
/// the text and neither starts nor ends with white space. A text that does not is left as it
/// is.
pub proof fn law_trimming_takes_the_white_space_around(text: Seq<char>)
    ensures
        trimmed(text).len() <= text.len(),
        trimmed(text).len() > 0 ==> !white_space(trimmed(text)[0]) && !white_space(
            trimmed(text).last(),
        ),
        text.len() > 0 && !white_space(text[0]) && !white_space(text.last()) ==> trimmed(text)
            == text,
        (forall|i: int| 0 <= i < text.len() ==> white_space(#[trigger] text[i])) <==> trimmed(
            text,
        ).len() == 0,
{
    lemma_trimmed_front(text);
    lemma_trimmed_back(trim_front(text));
    let rest = trim_front(text);
    if trimmed(text).len() == 0 && rest.len() > 0 {
        assert(white_space(rest[0]));
    }
}

proof fn lemma_trimmed_front(text: Seq<char>)
    ensures
        trim_front(text).len() <= text.len(),
        trim_front(text).len() > 0 ==> !white_space(trim_front(text)[0]) && trim_front(text).last()
            == text.last(),
        (forall|i: int| 0 <= i < text.len() ==> white_space(#[trigger] text[i])) <==> trim_front(
            text,
        ).len() == 0,
    decreases text.len(),
{
    if text.len() > 0 && white_space(text[0]) {
        let rest = text.drop_first();
        lemma_trimmed_front(rest);
        if forall|i: int| 0 <= i < text.len() ==> white_space(#[trigger] text[i]) {
            assert forall|i: int| 0 <= i < rest.len() implies white_space(#[trigger] rest[i]) by {
                assert(rest[i] == text[i + 1]);
            }
        }
        if forall|i: int| 0 <= i < rest.len() ==> white_space(#[trigger] rest[i]) {
            assert forall|i: int| 0 <= i < text.len() implies white_space(#[trigger] text[i]) by {
                if i > 0 {
                    assert(rest[i - 1] == text[i]);
                }
            }
        }
    } else if text.len() > 0 {
        assert(!white_space(text[0]));
    }
}

proof fn lemma_trimmed_back(text: Seq<char>)
    ensures
        trim_back(text).len() <= text.len(),
        trim_back(text).len() > 0 ==> !white_space(trim_back(text).last()) && trim_back(text)[0]
            == text[0],
        trim_back(text).len() == 0 && text.len() > 0 ==> white_space(text[0]),
    decreases text.len(),
{
    if text.len() > 0 && white_space(text.last()) {
        lemma_trimmed_back(text.drop_last());
    }
}

/// The number that decimal digits tell.
pub open spec fn number_told(text: Seq<char>) -> nat
    decreases text.len(),
{
    if text.len() == 0 {
        0
    } else {
        10 * number_told(text.drop_last()) + (text.last() as int - '0' as int) as nat
    }
}

/// A number that is written out can be read again.
pub proof fn law_digits_tell_the_number(n: nat)
    ensures
        digits(n).len() > 0,
        number_told(digits(n)) == n,
        forall|i: int| 0 <= i < digits(n).len() ==> '0' <= #[trigger] digits(n)[i] <= '9',
    decreases n,
{
    let text = digits(n);
    if n < 10 {
        assert(text.drop_last() =~= Seq::<char>::empty());
        assert(number_told(text.drop_last()) == 0);
    } else {
        law_digits_tell_the_number(n / 10);
        assert(text.drop_last() =~= digits(n / 10));
        assert forall|i: int| 0 <= i < text.len() implies '0' <= #[trigger] text[i] <= '9' by {
            if i < text.len() - 1 {
                assert(text[i] == digits(n / 10)[i]);
            }
        }
    }
}

/// An integer that is written out can be read again: below zero it starts with a minus.
pub proof fn law_integers_tell_their_sign(n: int)
    ensures
        n >= 0 ==> number_told(integer_digits(n)) == n && integer_digits(n)[0] != '-',
        n < 0 ==> integer_digits(n)[0] == '-' && number_told(integer_digits(n).drop_first()) == -n,
{
    if n < 0 {
        law_digits_tell_the_number((-n) as nat);
        assert(integer_digits(n).drop_first() =~= digits((-n) as nat));
    } else {
        law_digits_tell_the_number(n as nat);
    }
}

/// Folding brings the capital letters of the ASCII alphabet to small ones and changes no
/// other character.
pub proof fn law_only_capitals_are_folded(c: char)
    ensures
        65 <= c as u32 <= 90 ==> folded_char(c) as u32 == c as u32 + 32,
        !(65 <= c as u32 <= 90) ==> folded_char(c) == c,
        folded_char(folded_char(c)) == folded_char(c),
{
}

} // verus!
