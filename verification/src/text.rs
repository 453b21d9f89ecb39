//! Text as sequences of characters: classes of characters, words, joining and
//! trimming.
use vstd::prelude::*;

verus! {

// ---------------------------------------------------------------------------
// Characters
// ---------------------------------------------------------------------------

/// The characters with the Unicode property `White_Space`.
pub open spec fn whitespace(c: char) -> bool {
    let n: int = c as int;
    ||| 0x09 <= n <= 0x0d
    ||| n == 0x20
    ||| n == 0x85
    ||| n == 0xa0
    ||| n == 0x1680
    ||| 0x2000 <= n <= 0x200a
    ||| 0x2028 <= n <= 0x2029
    ||| n == 0x202f
    ||| n == 0x205f
    ||| n == 0x3000
}

/// The control characters: Unicode general category `Cc`.
pub open spec fn control(c: char) -> bool {
    let n: int = c as int;
    n < 0x20 || 0x7f <= n <= 0x9f
}

/// The lower-case form of an ASCII letter; any other character is kept.
pub open spec fn ascii_lower(c: char) -> char {
    if 'A' <= c <= 'Z' {
        (c as int + 32) as char
    } else {
        c
    }
}

/// Whether `c` is white space.
pub fn is_whitespace(c: char) -> (r: bool)
    ensures
        r == whitespace(c),
{
    let n: u32 = c as u32;
    (0x09 <= n && n <= 0x0d) || n == 0x20 || n == 0x85 || n == 0xa0 || n == 0x1680 || (0x2000 <= n
        && n <= 0x200a) || (0x2028 <= n && n <= 0x2029) || n == 0x202f || n == 0x205f || n == 0x3000
}

/// Whether `c` is a control character.
pub fn is_control(c: char) -> (r: bool)
    ensures
        r == control(c),
{
    let n: u32 = c as u32;
    n < 0x20 || (0x7f <= n && n <= 0x9f)
}

/// The lower-case form of an ASCII letter; any other character is kept.
pub fn to_ascii_lower(c: char) -> (r: char)
    ensures
        r == ascii_lower(c),
{
    if 'A' <= c && c <= 'Z' {
        ((c as u8) + 32) as char
    } else {
        c
    }
}

/// `String::push` appends one character.
pub assume_specification[ String::push ](s: &mut String, c: char)
    ensures
        final(s)@ == old(s)@.push(c),
;

/// The lower-case form that Unicode gives a text, which depends on the text as
/// a whole: a sigma at the end of a word is lowered differently.
pub uninterp spec fn lowercase(text: Seq<char>) -> Seq<char>;

/// `str::to_lowercase` returns the text's Unicode lower-case form. What that
/// form is on a given text is left unsaid.
pub assume_specification[ str::to_lowercase ](s: &str) -> (r: String)
    ensures
        r@ == lowercase(s@),
;

/// The upper-case form that Unicode gives a character: one or more characters.
pub uninterp spec fn uppercase(c: char) -> Seq<char>;

/// `char::to_uppercase` yields the characters of the upper-case form of `c`.
/// What that form is for a given character is left unsaid.
#[verifier::external_body]
pub(crate) fn to_uppercase(c: char) -> (r: String)
    ensures
        r@ == uppercase(c),
{
    c.to_uppercase().collect()
}

// ---------------------------------------------------------------------------
// Conversions
// ---------------------------------------------------------------------------

/// The characters of a text, in order.
pub fn characters(text: &str) -> (r: Vec<char>)
    ensures
        r@ == text@,
{
    let mut r: Vec<char> = Vec::new();
    for c in it: text.chars()
        invariant
            it.seq() == text@,
            r@ == it.seq().take(it.index()),
    {
        r.push(c);
        proof {
            assert(it.seq().take(it.index() + 1) =~= it.seq().take(it.index()).push(c));
        }
    }
    proof {
        assert(text@.take(text@.len() as int) =~= text@);
    }
    r
}

/// The text made of the given characters.
pub fn from_characters(characters: &Vec<char>) -> (r: String)
    ensures
        r@ == characters@,
{
    let mut r = String::new();
    for i in 0..characters.len()
        invariant
            r@ == characters@.take(i as int),
    {
        r.push(characters[i]);
        proof {
            assert(characters@.take(i + 1) =~= characters@.take(i as int).push(
                characters@[i as int],
            ));
        }
    }
    proof {
        assert(characters@.take(characters@.len() as int) =~= characters@);
    }
    r
}

/// Whether two lists hold the same characters in the same order.
pub fn same_characters(a: &Vec<char>, b: &Vec<char>) -> (r: bool)
    ensures
        r == (a@ == b@),
{
    if a.len() != b.len() {
        return false;
    }
    for i in 0..a.len()
        invariant
            a@.len() == b@.len(),
            a@.take(i as int) == b@.take(i as int),
    {
        if a[i] != b[i] {
            return false;
        }
        proof {
            assert(a@.take(i + 1) =~= a@.take(i as int).push(a@[i as int]));
            assert(b@.take(i + 1) =~= b@.take(i as int).push(b@[i as int]));
        }
    }
    proof {
        assert(a@.take(a@.len() as int) =~= a@);
        assert(b@.take(b@.len() as int) =~= b@);
    }
    true
}

/// Whether two texts are equal.
pub fn same_text(a: &str, b: &str) -> (r: bool)
    ensures
        r == (a@ == b@),
{
    same_characters(&characters(a), &characters(b))
}

// ---------------------------------------------------------------------------
// Words
// ---------------------------------------------------------------------------

/// A class of characters at which a text is cut or trimmed.
#[derive(Clone, Copy)]
pub enum CharClass {
    /// White space.
    Whitespace,
    /// The separator of path components.
    Slash,
    /// What may stand between a track prefix and its name: `_`, space, `-`.
    TitleLead,
    /// What a file stem must neither start nor end with: space and `.`.
    StemEdge,
}

impl CharClass {
    /// Whether the class holds `c`.
    pub open spec fn holds(self, c: char) -> bool {
        match self {
            CharClass::Whitespace => whitespace(c),
            CharClass::Slash => c == '/',
            CharClass::TitleLead => c == '_' || c == ' ' || c == '-',
            CharClass::StemEdge => c == ' ' || c == '.',
        }
    }

    /// Whether the class holds `c`.
    pub fn has(self, c: char) -> (r: bool)
        ensures
            r == self.holds(c),
    {
        match self {
            CharClass::Whitespace => is_whitespace(c),
            CharClass::Slash => c == '/',
            CharClass::TitleLead => c == '_' || c == ' ' || c == '-',
            CharClass::StemEdge => c == ' ' || c == '.',
        }
    }
}

/// The pieces between the characters of a class: the longest runs of other
/// characters, from left to right, none of them empty.
pub open spec fn pieces(text: Seq<char>, class: CharClass) -> Seq<Seq<char>>
    decreases text.len(),
{
    if text.len() == 0 {
        Seq::empty()
    } else {
        let before = pieces(text.drop_last(), class);
        let c = text.last();
        if class.holds(c) {
            before
        } else if text.len() == 1 || class.holds(text[text.len() - 2]) {
            before.push(seq![c])
        } else {
            before.drop_last().push(before.last().push(c))
        }
    }
}

/// The texts joined with one space between neighbours.
pub open spec fn spaced(words: Seq<Seq<char>>) -> Seq<char>
    decreases words.len(),
{
    if words.len() == 0 {
        Seq::empty()
    } else if words.len() == 1 {
        words[0]
    } else {
        spaced(words.drop_last()).push(' ') + words.last()
    }
}

/// The words of a text, joined with single spaces.
pub open spec fn single_spaced(text: Seq<char>) -> Seq<char> {
    spaced(pieces(text, CharClass::Whitespace))
}

/// The sequences that a list of character lists stands for.
pub open spec fn all_views(lists: Seq<Vec<char>>) -> Seq<Seq<char>> {
    Seq::new(lists.len(), |i: int| lists[i]@)
}

/// The pieces of a text between the characters of a class.
pub fn split_pieces(text: &Vec<char>, class: CharClass) -> (r: Vec<Vec<char>>)
    ensures
        all_views(r@) == pieces(text@, class),
{
    let mut r: Vec<Vec<char>> = Vec::new();
    let mut current: Vec<char> = Vec::new();
    for i in 0..text.len()
        invariant
            current@.len() == 0 <==> (i == 0 || class.holds(text@[i - 1])),
            current@.len() == 0 ==> all_views(r@) == pieces(text@.take(i as int), class),
            current@.len() > 0 ==> all_views(r@).push(current@) == pieces(
                text@.take(i as int),
                class,
            ),
    {
        let c = text[i];
        let ghost before = text@.take(i as int);
        let ghost after = text@.take(i + 1);
        let ghost done = all_views(r@);
        proof {
            assert(after.drop_last() =~= before);
            assert(after.last() == c);
            if i > 0 {
                assert(after[after.len() - 2] == text@[i - 1]);
            }
        }
        if class.has(c) {
            if current.len() > 0 {
                let ghost word = current@;
                r.push(current);
                current = Vec::new();
                proof {
                    assert(all_views(r@) =~= done.push(word));
                }
            }
        } else {
            let ghost word = current@;
            current.push(c);
            proof {
                if word.len() == 0 {
                    assert(current@ =~= seq![c]);
                    assert(pieces(after, class) == done.push(seq![c]));
                } else {
                    assert(done.push(word).drop_last() =~= done);
                    assert(pieces(after, class) == done.push(word.push(c)));
                }
            }
        }
    }
    proof {
        assert(text@.take(text@.len() as int) =~= text@);
    }
    if current.len() > 0 {
        let ghost done = all_views(r@);
        let ghost word = current@;
        r.push(current);
        proof {
            assert(all_views(r@) =~= done.push(word));
        }
    }
    r
}

/// The words joined with one space between neighbours.
pub fn join_spaced(words: &Vec<Vec<char>>) -> (r: Vec<char>)
    ensures
        r@ == spaced(all_views(words@)),
{
    let mut r: Vec<char> = Vec::new();
    for i in 0..words.len()
        invariant
            r@ == spaced(all_views(words@).take(i as int)),
    {
        let ghost so_far = all_views(words@).take(i as int);
        let ghost next = all_views(words@).take(i + 1);
        proof {
            assert(next.drop_last() =~= so_far);
        }
        let ghost old_r = r@;
        if i > 0 {
            r.push(' ');
        }
        let ghost head = r@;
        let length: usize = words[i].len();
        for j in 0..length
            invariant
                i < words@.len(),
                length == words@[i as int]@.len(),
                r@ == head + words@[i as int]@.take(j as int),
        {
            r.push(words[i][j]);
            proof {
                assert(words@[i as int]@.take(j + 1) =~= words@[i as int]@.take(j as int).push(
                    words@[i as int]@[j as int],
                ));
            }
        }
        proof {
            assert(words@[i as int]@.take(words@[i as int]@.len() as int) =~= words@[i as int]@);
            assert(next.last() == words@[i as int]@);
            if i == 0 {
                assert(old_r =~= Seq::empty());
                assert(r@ =~= words@[0]@);
            }
        }
    }
    proof {
        assert(all_views(words@).take(words@.len() as int) =~= all_views(words@));
    }
    r
}

/// The words of a text, joined with single spaces.
pub fn to_single_spaced(text: &Vec<char>) -> (r: Vec<char>)
    ensures
        r@ == single_spaced(text@),
{
    join_spaced(&split_pieces(text, CharClass::Whitespace))
}

// ---------------------------------------------------------------------------
// Trimming
// ---------------------------------------------------------------------------

/// The text without the characters of the class that it starts with.
pub open spec fn trim_start(text: Seq<char>, class: CharClass) -> Seq<char>
    decreases text.len(),
{
    if text.len() > 0 && class.holds(text[0]) {
        trim_start(text.drop_first(), class)
    } else {
        text
    }
}

/// The text without the characters of the class that it ends with.
pub open spec fn trim_end(text: Seq<char>, class: CharClass) -> Seq<char>
    decreases text.len(),
{
    if text.len() > 0 && class.holds(text.last()) {
        trim_end(text.drop_last(), class)
    } else {
        text
    }
}

/// The text without the characters of the class at either end.
pub open spec fn trim(text: Seq<char>, class: CharClass) -> Seq<char> {
    trim_end(trim_start(text, class), class)
}

/// The characters from position `start` up to position `end`.
pub fn slice_of(text: &Vec<char>, start: usize, end: usize) -> (r: Vec<char>)
    requires
        start <= end <= text@.len(),
    ensures
        r@ == text@.subrange(start as int, end as int),
{
    let mut r: Vec<char> = Vec::new();
    for i in start..end
        invariant
            start <= end <= text@.len(),
            r@ == text@.subrange(start as int, i as int),
    {
        r.push(text[i]);
        proof {
            assert(text@.subrange(start as int, i + 1) =~= text@.subrange(start as int, i as int)
                .push(text@[i as int]));
        }
    }
    r
}

/// The text without the characters of the class that it starts with.
pub fn without_start(text: &Vec<char>, class: CharClass) -> (r: Vec<char>)
    ensures
        r@ == trim_start(text@, class),
{
    let mut start: usize = 0;
    proof {
        assert(text@.skip(0) =~= text@);
    }
    while start < text.len() && class.has(text[start])
        invariant
            start <= text@.len(),
            trim_start(text@.skip(start as int), class) == trim_start(text@, class),
        decreases text@.len() - start,
    {
        proof {
            assert(text@.skip(start as int).drop_first() =~= text@.skip(start + 1));
        }
        start += 1;
    }
    proof {
        assert(text@.subrange(start as int, text@.len() as int) =~= text@.skip(start as int));
    }
    slice_of(text, start, text.len())
}

/// The text without the characters of the class that it ends with.
pub fn without_end(text: &Vec<char>, class: CharClass) -> (r: Vec<char>)
    ensures
        r@ == trim_end(text@, class),
{
    let mut end: usize = text.len();
    proof {
        assert(text@.take(end as int) =~= text@);
    }
    while end > 0 && class.has(text[end - 1])
        invariant
            end <= text@.len(),
            trim_end(text@.take(end as int), class) == trim_end(text@, class),
        decreases end,
    {
        proof {
            assert(text@.take(end as int).drop_last() =~= text@.take(end - 1));
        }
        end -= 1;
    }
    proof {
        assert(text@.subrange(0, end as int) =~= text@.take(end as int));
    }
    slice_of(text, 0, end)
}

/// The text without the characters of the class at either end.
pub fn trimmed(text: &Vec<char>, class: CharClass) -> (r: Vec<char>)
    ensures
        r@ == trim(text@, class),
{
    without_end(&without_start(text, class), class)
}

// ---------------------------------------------------------------------------
// What holds of words and of trimmed text
// ---------------------------------------------------------------------------

/// Whether a text is not empty and holds no white space.
pub open spec fn word(text: Seq<char>) -> bool {
    &&& text.len() > 0
    &&& forall|i: int| 0 <= i < text.len() ==> !whitespace(#[trigger] text[i])
}

/// Whether the only white space in a text are single spaces, the first of them
/// after the text's start.
pub open spec fn evenly_spaced(text: Seq<char>) -> bool {
    &&& forall|i: int|
        0 <= i < text.len() && whitespace(#[trigger] text[i]) ==> {
            &&& text[i] == ' '
            &&& i > 0
            &&& !whitespace(text[i - 1])
        }
}

/// Whether a text is words with single spaces between them.
pub open spec fn tidy(text: Seq<char>) -> bool {
    evenly_spaced(text) && (text.len() > 0 ==> !whitespace(text.last()))
}

/// The pieces between white space are words, made of characters of the text.
pub proof fn lemma_pieces_are_words(text: Seq<char>)
    ensures
        forall|k: int|
            0 <= k < pieces(text, CharClass::Whitespace).len() ==> word(
                #[trigger] pieces(text, CharClass::Whitespace)[k],
            ),
        forall|k: int, i: int|
            #![trigger pieces(text, CharClass::Whitespace)[k][i]]
            0 <= k < pieces(text, CharClass::Whitespace).len() && 0 <= i < pieces(
                text,
                CharClass::Whitespace,
            )[k].len() ==> text.contains(pieces(text, CharClass::Whitespace)[k][i]),
        text.len() > 0 && !whitespace(text.last()) ==> pieces(text, CharClass::Whitespace).len()
            > 0,
    decreases text.len(),
{
    let class = CharClass::Whitespace;
    if text.len() > 0 {
        let rest = text.drop_last();
        let c = text.last();
        lemma_pieces_are_words(rest);
        let old_pieces = pieces(rest, class);
        let new_pieces = pieces(text, class);
        assert(text[text.len() - 1] == c);
        assert forall|x: char| rest.contains(x) implies text.contains(x) by {
            let i = choose|i: int| 0 <= i < rest.len() && rest[i] == x;
            assert(text[i] == x);
        }
        if !class.holds(c) && text.len() > 1 && !class.holds(text[text.len() - 2]) {
            assert(rest.last() == text[text.len() - 2]);
            assert(old_pieces.len() > 0);
            let grown = old_pieces.last().push(c);
            assert(word(grown)) by {
                assert(word(old_pieces[old_pieces.len() - 1]));
            }
            assert forall|k: int, i: int|
                #![trigger new_pieces[k][i]]
                0 <= k < new_pieces.len() && 0 <= i < new_pieces[k].len() implies text.contains(
                new_pieces[k][i],
            ) by {
                if k < new_pieces.len() - 1 {
                    assert(new_pieces[k] == old_pieces[k]);
                    assert(rest.contains(old_pieces[k][i]));
                } else if i < old_pieces.last().len() {
                    assert(rest.contains(old_pieces[k][i]));
                }
            }
        } else {
            assert forall|k: int, i: int|
                #![trigger new_pieces[k][i]]
                0 <= k < new_pieces.len() && 0 <= i < new_pieces[k].len() implies text.contains(
                new_pieces[k][i],
            ) by {
                if k < old_pieces.len() {
                    assert(rest.contains(old_pieces[k][i]));
                }
            }
        }
    }
}

/// Words joined with single spaces are tidy, and empty only where there is no
/// word.
pub proof fn lemma_spaced_is_tidy(words: Seq<Seq<char>>)
    requires
        forall|k: int| 0 <= k < words.len() ==> word(#[trigger] words[k]),
    ensures
        tidy(spaced(words)),
        spaced(words).len() == 0 <==> words.len() == 0,
    decreases words.len(),
{
    if words.len() > 1 {
        let rest = words.drop_last();
        lemma_spaced_is_tidy(rest);
        let head = spaced(rest);
        let last = words.last();
        let whole = spaced(words);
        assert(word(words[words.len() - 1]));
        assert(whole == head.push(' ') + last);
        assert forall|i: int| 0 <= i < whole.len() && whitespace(#[trigger] whole[i]) implies {
            &&& whole[i] == ' '
            &&& i > 0
            &&& !whitespace(whole[i - 1])
        } by {
            if i < head.len() {
                assert(whole[i] == head[i]);
                assert(whole[i - 1] == head[i - 1]);
            } else if i > head.len() {
                assert(whole[i] == last[i - head.len() - 1]);
            } else {
                assert(whole[i - 1] == head.last());
            }
        }
        assert(whole.last() == last.last());
    } else if words.len() == 1 {
        assert(word(words[0]));
    }
}

/// Each character of words joined with spaces is a space or one of a word's.
pub proof fn lemma_spaced_characters(words: Seq<Seq<char>>, i: int)
    requires
        0 <= i < spaced(words).len(),
    ensures
        spaced(words)[i] == ' ' || exists|k: int, j: int|
            0 <= k < words.len() && 0 <= j < words[k].len() && #[trigger] words[k][j] == spaced(
                words,
            )[i],
    decreases words.len(),
{
    if words.len() > 1 {
        let rest = words.drop_last();
        let head = spaced(rest);
        if i < head.len() {
            lemma_spaced_characters(rest, i);
            assert(spaced(words)[i] == head[i]);
            if head[i] != ' ' {
                let (k, j) = choose|k: int, j: int|
                    0 <= k < rest.len() && 0 <= j < rest[k].len() && #[trigger] rest[k][j]
                        == head[i];
                assert(words[k][j] == head[i]);
            }
        } else if i > head.len() {
            assert(words[words.len() - 1][i - head.len() - 1] == spaced(words)[i]);
        }
    } else if words.len() == 1 {
        assert(words[0][i] == spaced(words)[i]);
    }
}

/// Growing the last word grows the joined words.
proof fn lemma_spaced_grows(words: Seq<Seq<char>>, c: char)
    requires
        words.len() > 0,
    ensures
        spaced(words.drop_last().push(words.last().push(c))) == spaced(words).push(c),
{
    let grown = words.drop_last().push(words.last().push(c));
    assert(grown.drop_last() =~= words.drop_last());
    if words.len() > 1 {
        assert(spaced(grown) =~= spaced(words).push(c));
    }
}

/// The words of an evenly spaced text, joined again, give the text back, but
/// for a space at its end.
pub proof fn lemma_evenly_spaced_fixed(text: Seq<char>)
    requires
        evenly_spaced(text),
    ensures
        text.len() > 0 && whitespace(text.last()) ==> single_spaced(text) == text.drop_last(),
        text.len() == 0 || !whitespace(text.last()) ==> single_spaced(text) == text,
    decreases text.len(),
{
    let class = CharClass::Whitespace;
    if text.len() == 0 {
        assert(single_spaced(text) =~= text);
    } else {
        let rest = text.drop_last();
        let c = text.last();
        assert(evenly_spaced(rest)) by {
            assert forall|i: int| 0 <= i < rest.len() && whitespace(#[trigger] rest[i]) implies {
                &&& rest[i] == ' '
                &&& i > 0
                &&& !whitespace(rest[i - 1])
            } by {
                assert(whitespace(text[i]));
            }
        }
        lemma_evenly_spaced_fixed(rest);
        lemma_pieces_are_words(rest);
        let before = pieces(rest, class);
        assert(text[text.len() - 1] == c);
        if whitespace(c) {
            assert(rest.last() == text[text.len() - 2]);
        } else if text.len() == 1 {
            assert(before.push(seq![c]) =~= seq![seq![c]]);
            assert(text =~= seq![c]);
        } else if whitespace(text[text.len() - 2]) {
            assert(rest.last() == text[text.len() - 2]);
            assert(rest.len() > 1);
            assert(!whitespace(rest[rest.len() - 2]));
            assert(spaced(before) == rest.drop_last());
            assert(before.len() > 0) by {
                if before.len() == 0 {
                    assert(spaced(before).len() == 0);
                }
            }
            let now = before.push(seq![c]);
            assert(now.drop_last() =~= before);
            assert(spaced(now) == spaced(before).push(' ') + seq![c]);
            assert(spaced(now) =~= text);
        } else {
            assert(rest.last() == text[text.len() - 2]);
            lemma_spaced_grows(before, c);
            assert(rest.push(c) =~= text);
        }
    }
}

/// Words joined with single spaces: tidy, made of spaces and of characters of
/// the text, and unchanged when done again.
pub proof fn lemma_single_spaced(text: Seq<char>)
    ensures
        tidy(single_spaced(text)),
        single_spaced(single_spaced(text)) == single_spaced(text),
        forall|i: int|
            0 <= i < single_spaced(text).len() ==> (#[trigger] single_spaced(text)[i] == ' '
                || text.contains(single_spaced(text)[i])),
{
    let words = pieces(text, CharClass::Whitespace);
    lemma_pieces_are_words(text);
    lemma_spaced_is_tidy(words);
    lemma_evenly_spaced_fixed(single_spaced(text));
    assert forall|i: int| 0 <= i < single_spaced(text).len() implies (
    #[trigger] single_spaced(text)[i] == ' ' || text.contains(single_spaced(text)[i])) by {
        lemma_spaced_characters(words, i);
    }
}

/// Trimming takes a part of the text, whose ends are not of the class.
pub proof fn lemma_trim(text: Seq<char>, class: CharClass)
    ensures
        exists|start: int, end: int|
            0 <= start <= end <= text.len() && trim(text, class) == #[trigger] text.subrange(
                start,
                end,
            ),
        trim(text, class).len() > 0 ==> !class.holds(trim(text, class)[0]) && !class.holds(
            trim(text, class).last(),
        ),
{
    lemma_trim_start(text, class);
    let start = choose|start: int|
        0 <= start <= text.len() && trim_start(text, class) == #[trigger] text.skip(start);
    let rest = text.skip(start);
    lemma_trim_end(rest, class);
    let end = choose|end: int|
        0 <= end <= rest.len() && trim_end(rest, class) == #[trigger] rest.take(end);
    assert(rest.take(end) =~= text.subrange(start, start + end));
}

/// Trimming the start skips characters.
proof fn lemma_trim_start(text: Seq<char>, class: CharClass)
    ensures
        exists|start: int|
            0 <= start <= text.len() && trim_start(text, class) == #[trigger] text.skip(start),
        trim_start(text, class).len() > 0 ==> !class.holds(trim_start(text, class)[0]),
    decreases text.len(),
{
    if text.len() > 0 && class.holds(text[0]) {
        let rest = text.drop_first();
        lemma_trim_start(rest, class);
        let start = choose|start: int|
            0 <= start <= rest.len() && trim_start(rest, class) == #[trigger] rest.skip(start);
        assert(rest.skip(start) =~= text.skip(start + 1));
    } else {
        assert(text.skip(0) =~= text);
    }
}

/// Trimming the end keeps the first characters.
proof fn lemma_trim_end(text: Seq<char>, class: CharClass)
    ensures
        exists|end: int|
            0 <= end <= text.len() && trim_end(text, class) == #[trigger] text.take(end),
        trim_end(text, class).len() > 0 ==> !class.holds(trim_end(text, class).last()),
    decreases text.len(),
{
    if text.len() > 0 && class.holds(text.last()) {
        let rest = text.drop_last();
        lemma_trim_end(rest, class);
        let end = choose|end: int|
            0 <= end <= rest.len() && trim_end(rest, class) == #[trigger] rest.take(end);
        assert(rest.take(end) =~= text.take(end));
    } else {
        assert(text.take(text.len() as int) =~= text);
    }
}

// ---------------------------------------------------------------------------
// Laws
// ---------------------------------------------------------------------------

/// The pieces of two texts that meet at a character of the class.
pub proof fn lemma_pieces_add(a: Seq<char>, b: Seq<char>, class: CharClass)
    requires
        a.len() == 0 || b.len() == 0 || class.holds(a.last()) || class.holds(b[0]),
    ensures
        pieces(a + b, class) == pieces(a, class) + pieces(b, class),
    decreases b.len(),
{
    if b.len() == 0 {
        assert(a + b =~= a);
        assert(pieces(a, class) + Seq::empty() =~= pieces(a, class));
    } else if a.len() == 0 {
        assert(a + b =~= b);
        assert(Seq::empty() + pieces(b, class) =~= pieces(b, class));
    } else {
        let front = b.drop_last();
        lemma_pieces_add(a, front, class);
        assert((a + b).drop_last() =~= a + front);
        assert((a + b).last() == b.last());
        let (first, second) = (pieces(a, class), pieces(front, class));
        if !class.holds(b.last()) {
            if b.len() == 1 {
                assert((a + b)[(a + b).len() - 2] == a.last());
                assert(first + second.push(seq![b.last()]) =~= (first + second).push(
                    seq![b.last()],
                ));
            } else if class.holds(b[b.len() - 2]) {
                assert((a + b)[(a + b).len() - 2] == b[b.len() - 2]);
                assert(first + second.push(seq![b.last()]) =~= (first + second).push(
                    seq![b.last()],
                ));
            } else {
                assert((a + b)[(a + b).len() - 2] == b[b.len() - 2]);
                assert(front.last() == b[b.len() - 2]);
                assert(second.len() > 0);
                let longer = second.last().push(b.last());
                assert((first + second).last() == second.last());
                assert(first + second.drop_last().push(longer) =~= (
                first + second).drop_last().push(longer));
            }
        }
    }
}

/// A text without characters of the class is one piece.
pub proof fn lemma_one_piece(name: Seq<char>, class: CharClass)
    requires
        name.len() > 0,
        forall|i: int| 0 <= i < name.len() ==> !class.holds(#[trigger] name[i]),
    ensures
        pieces(name, class) == seq![name],
    decreases name.len(),
{
    assert(!class.holds(name[name.len() - 1]));
    if name.len() == 1 {
        assert(name =~= seq![name.last()]);
        assert(pieces(name.drop_last(), class) =~= Seq::empty());
    } else {
        let front = name.drop_last();
        lemma_one_piece(front, class);
        assert(!class.holds(name[name.len() - 2]));
        assert(front.push(name.last()) =~= name);
        assert(seq![front].drop_last().push(name) =~= seq![name]);
    }
}

/// A text of characters of the class has no pieces.
pub proof fn lemma_no_pieces(name: Seq<char>, class: CharClass)
    requires
        forall|i: int| 0 <= i < name.len() ==> class.holds(#[trigger] name[i]),
    ensures
        pieces(name, class) == Seq::<Seq<char>>::empty(),
    decreases name.len(),
{
    if name.len() > 0 {
        assert(class.holds(name[name.len() - 1]));
        lemma_no_pieces(name.drop_last(), class);
    }
}

/// A text with a character that is not of the class has pieces.
pub proof fn lemma_some_piece(name: Seq<char>, class: CharClass, i: int)
    requires
        0 <= i < name.len(),
        !class.holds(name[i]),
    ensures
        pieces(name, class).len() > 0,
    decreases name.len(),
{
    if i < name.len() - 1 {
        lemma_some_piece(name.drop_last(), class, i);
    }
}

/// Words of two lists are joined as the lists are.
pub proof fn lemma_spaced_add(a: Seq<Seq<char>>, b: Seq<Seq<char>>)
    requires
        a.len() > 0,
        b.len() > 0,
    ensures
        spaced(a + b) == spaced(a).push(' ') + spaced(b),
    decreases b.len(),
{
    assert((a + b).drop_last() =~= a + b.drop_last());
    assert((a + b).last() == b.last());
    if b.len() == 1 {
        assert(a + b.drop_last() =~= a);
    } else {
        lemma_spaced_add(a, b.drop_last());
        assert(spaced(a).push(' ') + (spaced(b.drop_last()).push(' ') + b.last()) =~= (spaced(
            a,
        ).push(' ') + spaced(b.drop_last())).push(' ') + b.last());
    }
}

/// Whether a text has a character that is no white space.
pub open spec fn has_words(text: Seq<char>) -> bool {
    exists|i: int| 0 <= i < text.len() && !whitespace(#[trigger] text[i])
}

/// A text has words exactly where it has pieces between white space.
pub proof fn lemma_has_words(text: Seq<char>)
    ensures
        has_words(text) <==> pieces(text, CharClass::Whitespace).len() > 0,
        has_words(text) <==> single_spaced(text).len() > 0,
{
    if has_words(text) {
        let i = choose|i: int| 0 <= i < text.len() && !whitespace(#[trigger] text[i]);
        lemma_some_piece(text, CharClass::Whitespace, i);
    } else {
        lemma_no_pieces(text, CharClass::Whitespace);
    }
    lemma_pieces_are_words(text);
    lemma_spaced_is_tidy(pieces(text, CharClass::Whitespace));
}

/// A word stays as it is. What stands on either side of white space is spaced alone,
/// with one space between; white space on either side of all words is dropped. These
/// tell how any text is spaced.
pub proof fn law_white_space_becomes_one_space(a: Seq<char>, c: char, b: Seq<char>)
    requires
        whitespace(c),
    ensures
        word(a) ==> single_spaced(a) == a,
        has_words(a) && has_words(b) ==> single_spaced(a.push(c) + b) == single_spaced(a).push(' ')
            + single_spaced(b),
        !has_words(a) ==> single_spaced(a.push(c) + b) == single_spaced(b),
        !has_words(b) ==> single_spaced(a.push(c) + b) == single_spaced(a),
        !has_words(a) ==> single_spaced(a) == Seq::<char>::empty(),
{
    let class = CharClass::Whitespace;
    let start = a.push(c);
    lemma_pieces_add(start, b, class);
    assert(start.drop_last() =~= a);
    assert(pieces(start, class) == pieces(a, class));
    lemma_has_words(a);
    lemma_has_words(b);
    if word(a) {
        lemma_one_piece(a, class);
    }
    let (x, y) = (pieces(a, class), pieces(b, class));
    if has_words(a) && has_words(b) {
        lemma_spaced_add(x, y);
    }
    if !has_words(a) {
        assert(x + y =~= y);
        assert(single_spaced(a) =~= Seq::empty());
    }
    if !has_words(b) {
        assert(x + y =~= x);
    }
}

/// White space are the twenty-five characters that have the Unicode property.
pub proof fn law_white_space(c: char, r: bool)
    requires
        call_ensures(is_whitespace, (c,), r),
    ensures
        r <==> {
            let n = c as int;
            n == 9 || n == 10 || n == 11 || n == 12 || n == 13 || n == 32 || n == 133 || n == 160
                || n == 5760 || (8192 <= n < 8203) || n == 8232 || n == 8233 || n == 8239 || n
                == 8287 || n == 12288
        },
{
}

/// Control characters are the first thirty-two and the thirty-three from delete on.
pub proof fn law_control_characters(c: char, r: bool)
    requires
        call_ensures(is_control, (c,), r),
    ensures
        r <==> (c as int) < 32 || 127 <= (c as int) < 160,
{
}

/// Only the capital letters of ASCII are lowered, each to the small letter that stands
/// as far behind `a` as the capital one behind `A`.
pub proof fn law_ascii_letters_are_lowered(c: char, r: char)
    requires
        call_ensures(to_ascii_lower, (c,), r),
    ensures
        'A' <= c <= 'Z' ==> r as int - 'a' as int == c as int - 'A' as int,
        !('A' <= c <= 'Z') ==> r == c,
{
}

/// Trimming takes characters of the class from both ends, and nothing else.
pub proof fn law_trimming_takes_the_ends_only(text: Seq<char>, class: CharClass)
    ensures
        exists|start: int, end: int|
            {
                &&& 0 <= start <= end <= text.len()
                &&& trim(text, class) == #[trigger] text.subrange(start, end)
                &&& forall|i: int|
                    0 <= i < start || end <= i < text.len() ==> class.holds(#[trigger] text[i])
                &&& start < end ==> !class.holds(text[start]) && !class.holds(text[end - 1])
            },
{
    lemma_trimmed_start(text, class);
    let start = choose|start: int|
        {
            &&& 0 <= start <= text.len()
            &&& trim_start(text, class) == #[trigger] text.skip(start)
            &&& forall|i: int| 0 <= i < start ==> class.holds(#[trigger] text[i])
            &&& start < text.len() ==> !class.holds(text[start])
        };
    let rest = text.skip(start);
    lemma_trimmed_end(rest, class);
    let end = choose|end: int|
        {
            &&& 0 <= end <= rest.len()
            &&& trim_end(rest, class) == #[trigger] rest.take(end)
            &&& forall|i: int| end <= i < rest.len() ==> class.holds(#[trigger] rest[i])
            &&& end > 0 ==> !class.holds(rest[end - 1])
        };
    assert(rest.take(end) =~= text.subrange(start, start + end));
    assert forall|i: int| 0 <= i < start || start + end <= i < text.len() implies class.holds(
        #[trigger] text[i],
    ) by {
        if i >= start + end {
            assert(rest[i - start] == text[i]);
        }
    }
    if end > 0 {
        assert(rest[end - 1] == text[start + end - 1]);
        if start == text.len() {
            assert(rest.len() == 0);
        }
    }
}

/// Trimming the start takes characters of the class only.
proof fn lemma_trimmed_start(text: Seq<char>, class: CharClass)
    ensures
        exists|start: int|
            {
                &&& 0 <= start <= text.len()
                &&& trim_start(text, class) == #[trigger] text.skip(start)
                &&& forall|i: int| 0 <= i < start ==> class.holds(#[trigger] text[i])
                &&& start < text.len() ==> !class.holds(text[start])
            },
    decreases text.len(),
{
    if text.len() > 0 && class.holds(text[0]) {
        let rest = text.drop_first();
        lemma_trimmed_start(rest, class);
        let start = choose|start: int|
            {
                &&& 0 <= start <= rest.len()
                &&& trim_start(rest, class) == #[trigger] rest.skip(start)
                &&& forall|i: int| 0 <= i < start ==> class.holds(#[trigger] rest[i])
                &&& start < rest.len() ==> !class.holds(rest[start])
            };
        assert(rest.skip(start) =~= text.skip(start + 1));
        assert forall|i: int| 0 <= i < start + 1 implies class.holds(#[trigger] text[i]) by {
            if i > 0 {
                assert(rest[i - 1] == text[i]);
            }
        }
    } else {
        assert(text.skip(0) =~= text);
    }
}

/// Trimming the end takes characters of the class only.
proof fn lemma_trimmed_end(text: Seq<char>, class: CharClass)
    ensures
        exists|end: int|
            {
                &&& 0 <= end <= text.len()
                &&& trim_end(text, class) == #[trigger] text.take(end)
                &&& forall|i: int| end <= i < text.len() ==> class.holds(#[trigger] text[i])
                &&& end > 0 ==> !class.holds(text[end - 1])
            },
    decreases text.len(),
{
    if text.len() > 0 && class.holds(text.last()) {
        let rest = text.drop_last();
        lemma_trimmed_end(rest, class);
        let end = choose|end: int|
            {
                &&& 0 <= end <= rest.len()
                &&& trim_end(rest, class) == #[trigger] rest.take(end)
                &&& forall|i: int| end <= i < rest.len() ==> class.holds(#[trigger] rest[i])
                &&& end > 0 ==> !class.holds(rest[end - 1])
            };
        assert(rest.take(end) =~= text.take(end));
        assert forall|i: int| end <= i < text.len() implies class.holds(#[trigger] text[i]) by {
            if i < rest.len() {
                assert(rest[i] == text[i]);
            }
        }
    } else {
        assert(text.take(text.len() as int) =~= text);
    }
}

/// Characters of the class are taken from the start of a text until one is not of it.
pub proof fn lemma_lead_is_trimmed(lead: Seq<char>, rest: Seq<char>, class: CharClass)
    requires
        forall|i: int| 0 <= i < lead.len() ==> class.holds(#[trigger] lead[i]),
        rest.len() > 0 ==> !class.holds(rest[0]),
    ensures
        trim_start(lead + rest, class) == rest,
    decreases lead.len(),
{
    if lead.len() == 0 {
        assert(lead + rest =~= rest);
    } else {
        assert((lead + rest)[0] == lead[0]);
        assert((lead + rest).drop_first() =~= lead.drop_first() + rest);
        lemma_lead_is_trimmed(lead.drop_first(), rest, class);
    }
}

/// A class holds the characters that it is named after.
pub proof fn law_classes_hold_their_characters(c: char, slash: bool, lead: bool, edge: bool)
    requires
        call_ensures(CharClass::has, (CharClass::Slash, c), slash),
        call_ensures(CharClass::has, (CharClass::TitleLead, c), lead),
        call_ensures(CharClass::has, (CharClass::StemEdge, c), edge),
    ensures
        slash <==> c as int == 0x2f,
        lead <==> c as int == 0x5f || c as int == 0x20 || c as int == 0x2d,
        edge <==> c as int == 0x20 || c as int == 0x2e,
{
}

/// The characters of a text, and the text of characters, are the same one by one.
pub proof fn law_characters_are_those_of_the_text(
    text: &str,
    list: &Vec<char>,
    r: Vec<char>,
    s: String,
)
    requires
        call_ensures(characters, (text,), r),
        call_ensures(from_characters, (list,), s),
    ensures
        r@.len() == text@.len(),
        forall|i: int| 0 <= i < text@.len() ==> #[trigger] r@[i] == text@[i],
        s@.len() == list@.len(),
        forall|i: int| 0 <= i < list@.len() ==> #[trigger] s@[i] == list@[i],
{
}

/// Two texts are the same where they are of one length and agree character by
/// character.
pub proof fn law_same_texts_agree_everywhere(a: &str, b: &str, r: bool)
    requires
        call_ensures(same_text, (a, b), r),
    ensures
        r <==> a@.len() == b@.len() && forall|i: int|
            0 <= i < a@.len() ==> #[trigger] a@[i] == b@[i],
{
    if a@.len() == b@.len() && forall|i: int| 0 <= i < a@.len() ==> #[trigger] a@[i] == b@[i] {
        assert(a@ =~= b@);
    }
}

/// A part of a text has the characters from its start up to its end.
pub proof fn law_part_has_the_characters_between(
    text: &Vec<char>,
    start: usize,
    end: usize,
    r: Vec<char>,
)
    requires
        start <= end <= text@.len(),
        call_ensures(slice_of, (text, start, end), r),
    ensures
        r@.len() == end - start,
        forall|i: int| 0 <= i < end - start ==> #[trigger] r@[i] == text@[start + i],
{
}

/// A text without characters of the class is one piece, one of such characters alone
/// has none, and the pieces on either side of such a character are those of the whole.
pub proof fn law_pieces_stand_between_the_characters(
    class: CharClass,
    c: char,
    holds: bool,
    a: &Vec<char>,
    b: &Vec<char>,
    whole: &Vec<char>,
    ra: Vec<Vec<char>>,
    rb: Vec<Vec<char>>,
    r: Vec<Vec<char>>,
)
    requires
        call_ensures(CharClass::has, (class, c), holds),
        holds,
        whole@ == a@.push(c) + b@,
        call_ensures(split_pieces, (a, class), ra),
        call_ensures(split_pieces, (b, class), rb),
        call_ensures(split_pieces, (whole, class), r),
    ensures
        a@.len() > 0 && (forall|i: int| 0 <= i < a@.len() ==> !class.holds(#[trigger] a@[i]))
            ==> ra@.len() == 1 && ra@[0]@ == a@,
        a@.len() == 0 ==> ra@.len() == 0,
        r@.len() == ra@.len() + rb@.len(),
        forall|i: int| 0 <= i < ra@.len() ==> (#[trigger] r@[i])@ == ra@[i]@,
        forall|i: int| 0 <= i < rb@.len() ==> (#[trigger] rb@[i])@ == r@[ra@.len() + i]@,
{
    let (x, y, z) = (all_views(ra@), all_views(rb@), all_views(r@));
    lemma_pieces_add(a@.push(c), b@, class);
    assert(a@.push(c).drop_last() =~= a@);
    assert(z == x + y);
    assert(x.len() == ra@.len() && y.len() == rb@.len() && z.len() == r@.len());
    if a@.len() > 0 && (forall|i: int| 0 <= i < a@.len() ==> !class.holds(#[trigger] a@[i])) {
        lemma_one_piece(a@, class);
        assert(x[0] == ra@[0]@);
    }
    assert forall|i: int| 0 <= i < ra@.len() implies (#[trigger] r@[i])@ == ra@[i]@ by {
        assert(z[i] == r@[i]@ && x[i] == ra@[i]@);
    }
    assert forall|i: int| 0 <= i < rb@.len() implies (#[trigger] rb@[i])@
        == r@[ra@.len() + i]@ by {
        assert(z[ra@.len() + i] == r@[ra@.len() + i]@ && y[i] == rb@[i]@);
    }
}

/// Spacing a text gives its words with one space between two.
pub proof fn law_spaced_text_has_single_spaces(
    c: char,
    a: &Vec<char>,
    b: &Vec<char>,
    whole: &Vec<char>,
    ra: Vec<char>,
    rb: Vec<char>,
    r: Vec<char>,
)
    requires
        whitespace(c),
        whole@ == a@.push(c) + b@,
        call_ensures(to_single_spaced, (a,), ra),
        call_ensures(to_single_spaced, (b,), rb),
        call_ensures(to_single_spaced, (whole,), r),
    ensures
        word(a@) ==> ra@ == a@,
        has_words(a@) && has_words(b@) ==> r@ == ra@.push(' ') + rb@,
        !has_words(a@) ==> ra@.len() == 0 && r@ == rb@,
        !has_words(b@) ==> r@ == ra@,
{
    law_white_space_becomes_one_space(a@, c, b@);
}

/// What is trimmed stands between characters of the class: none of the class is left
/// at its ends, and only such were taken.
pub proof fn law_trimmed_text_stands_between(
    text: &Vec<char>,
    class: CharClass,
    r: Vec<char>,
)
    requires
        call_ensures(trimmed, (text, class), r),
    ensures
        exists|start: int, end: int|
            {
                &&& 0 <= start <= end <= text@.len()
                &&& r@ == #[trigger] text@.subrange(start, end)
                &&& forall|i: int|
                    0 <= i < start || end <= i < text@.len() ==> class.holds(#[trigger] text@[i])
                &&& start < end ==> !class.holds(text@[start]) && !class.holds(text@[end - 1])
            },
{
    law_trimming_takes_the_ends_only(text@, class);
}

} // verus!
