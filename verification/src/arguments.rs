//! The arguments that `ffmpeg` and `ffprobe` are run with.
use vstd::prelude::*;

verus! {

/// An argument of `ffmpeg`.
#[derive(Debug)]
pub enum Argument {
    /// The text.
    Text(String),
    /// The path of the VA-API device.
    Device,
    /// The path of the source.
    Source,
    /// The path of the video.
    Output,
}

/// An argument as a mathematical value.
pub enum Word {
    Text(Seq<char>),
    Device,
    Source,
    Output,
}

impl View for Argument {
    type V = Word;

    open spec fn view(&self) -> Word {
        match self {
            Argument::Text(text) => Word::Text(text@),
            Argument::Device => Word::Device,
            Argument::Source => Word::Source,
            Argument::Output => Word::Output,
        }
    }
}

/// The words that a list of arguments stands for.
pub open spec fn words_of(arguments: Seq<Argument>) -> Seq<Word> {
    arguments.map_values(|argument: Argument| argument@)
}

/// Texts as arguments.
pub open spec fn texts(list: Seq<Seq<char>>) -> Seq<Word> {
    list.map_values(|text: Seq<char>| Word::Text(text))
}

/// The texts of a list.
pub open spec fn views_of(list: Seq<&str>) -> Seq<Seq<char>> {
    list.map_values(|text: &str| text@)
}

/// Adds a text to arguments.
pub fn add_text(arguments: &mut Vec<Argument>, text: &str)
    ensures
        words_of(final(arguments)@) == words_of(old(arguments)@).push(Word::Text(text@)),
{
    let ghost before = arguments@;
    arguments.push(Argument::Text(text.to_owned()));
    proof {
        assert(words_of(arguments@) =~= words_of(before).push(Word::Text(text@)));
    }
}

/// Adds texts to arguments.
pub fn add_texts(arguments: &mut Vec<Argument>, list: Vec<&str>)
    ensures
        words_of(final(arguments)@) == words_of(old(arguments)@) + texts(views_of(list@)),
{
    let ghost before = words_of(arguments@);
    proof {
        assert(before =~= before + texts(views_of(list@.take(0))));
    }
    for i in 0..list.len()
        invariant
            words_of(arguments@) == before + texts(views_of(list@.take(i as int))),
    {
        add_text(arguments, list[i]);
        proof {
            assert(texts(views_of(list@.take(i + 1))) =~= texts(
                views_of(list@.take(i as int)),
            ).push(Word::Text(list@[i as int]@)));
            assert(words_of(arguments@) =~= before + texts(views_of(list@.take(i + 1))));
        }
    }
    proof {
        assert(list@.take(list@.len() as int) =~= list@);
    }
}

/// Adds an argument that is no text.
pub fn add_word(arguments: &mut Vec<Argument>, argument: Argument)
    ensures
        words_of(final(arguments)@) == words_of(old(arguments)@).push(argument@),
{
    let ghost before = arguments@;
    arguments.push(argument);
    proof {
        assert(words_of(arguments@) =~= words_of(before).push(argument@));
    }
}

/// Arguments, none yet.
pub fn no_arguments() -> (r: Vec<Argument>)
    ensures
        words_of(r@) == Seq::<Word>::empty(),
{
    let r: Vec<Argument> = Vec::new();
    proof {
        assert(words_of(r@) =~= Seq::empty());
    }
    r
}

/// Whether a text stands right behind an option.
pub open spec fn behind(words: Seq<Word>, option: Seq<char>, value: Seq<char>) -> bool {
    exists|i: int|
        #![trigger words[i]]
        0 <= i < words.len() - 1 && words[i] == Word::Text(option) && words[i + 1] == Word::Text(
            value,
        )
}

/// Whether a word stands right behind an option.
pub open spec fn word_behind(words: Seq<Word>, option: Seq<char>, word: Word) -> bool {
    exists|i: int|
        #![trigger words[i]]
        0 <= i < words.len() - 1 && words[i] == Word::Text(option) && words[i + 1] == word
}

/// Whether an option is among words.
pub open spec fn given(words: Seq<Word>, option: Seq<char>) -> bool {
    exists|i: int| 0 <= i < words.len() && #[trigger] words[i] == Word::Text(option)
}

/// Each word is the argument at its place: its text, or what it is the path of.
pub proof fn law_words_are_the_arguments(arguments: Seq<Argument>, i: int)
    requires
        0 <= i < arguments.len(),
    ensures
        words_of(arguments).len() == arguments.len(),
        arguments[i] matches Argument::Text(text) ==> words_of(arguments)[i] == Word::Text(text@),
        arguments[i] is Device <==> words_of(arguments)[i] is Device,
        arguments[i] is Source <==> words_of(arguments)[i] is Source,
        arguments[i] is Output <==> words_of(arguments)[i] is Output,
{
}

/// Arguments are added behind those that there are, which stay.
pub proof fn law_arguments_are_added_behind(
    arguments: &mut Vec<Argument>,
    list: Vec<&str>,
    r: (),
)
    requires
        call_ensures(add_texts, (arguments, list), r),
    ensures
        final(arguments)@.len() == old(arguments)@.len() + list@.len(),
        forall|i: int|
            0 <= i < old(arguments)@.len() ==> (#[trigger] final(arguments)@[i])@
                == old(arguments)@[i]@,
        forall|i: int|
            0 <= i < list@.len() ==> final(arguments)@[old(arguments)@.len() + i]@ == Word::Text(
                (#[trigger] list@[i])@,
            ),
{
    let (before, after) = (words_of(old(arguments)@), words_of(final(arguments)@));
    let added = texts(views_of(list@));
    assert(after == before + added);
    assert(after.len() == final(arguments)@.len());
    assert forall|i: int| 0 <= i < old(arguments)@.len() implies (
    #[trigger] final(arguments)@[i])@ == old(arguments)@[i]@ by {
        assert(after[i] == before[i]);
    }
    assert forall|i: int| 0 <= i < list@.len() implies final(arguments)@[old(arguments)@.len()
        + i]@ == Word::Text((#[trigger] list@[i])@) by {
        assert(after[before.len() + i] == added[i]);
    }
}

} // verus!
