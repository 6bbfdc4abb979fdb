//! Breaking text into lines.
use hyphenation::{Hyphenator, Language, Load, Standard};
use textwrap::{Options, WordSeparator, WordSplitter};
use vstd::prelude::*;
use vstd::string::StrSliceExecFns;

verus! {

/// A hyphenation dictionary, carried as an opaque value.
#[verifier::external_type_specification]
#[verifier::external_body]
pub struct ExStandard(hyphenation::Standard);

/// Why a hyphenation dictionary could not be loaded, carried as an opaque value.
#[verifier::external_type_specification]
#[verifier::external_body]
pub struct ExLoadError(hyphenation::load::Error);

/// `text` broken into lines of at most `width` columns, with words divided as in American English,
/// as `textwrap::fill` gives it.
pub uninterp spec fn filled(text: Seq<char>, width: usize) -> Seq<char>;

/// The words of a line, each with the spaces after it, as `WordSeparator::find_words` gives them.
pub uninterp spec fn line_words(line: Seq<char>) -> Seq<(Seq<char>, Seq<char>)>;

/// The places, in bytes, where American English divides a word, as `Hyphenator::hyphenate` gives
/// them.
pub uninterp spec fn english_breaks(word: Seq<char>) -> Seq<usize>;

/// The dictionary is one that `load_dictionary` gives.
pub closed spec fn is_english(dictionary: Standard) -> bool {
    call_ensures(load_dictionary, (), Ok(dictionary))
}

/// `load_dictionary` may fail with this error.
pub closed spec fn fails_with(cause: hyphenation::load::Error) -> bool {
    call_ensures(load_dictionary, (), Err(cause))
}

/// `Standard::from_embedded`: the American English dictionary that is part of the program. Nothing
/// is claimed of it, not even that it loads.
#[verifier::external_body]
fn load_dictionary() -> (loaded: Result<Standard, hyphenation::load::Error>) {
    Standard::from_embedded(Language::EnglishUS)
}

/// `WordSeparator::find_words`, with the separator that `textwrap::Options` start with. The words
/// go by the line alone; which they are is not stated, only named.
#[verifier::external_body]
fn find_words(line: &str) -> (words: Vec<(String, String)>)
    ensures
        words@.map_values(|word: (String, String)| (word.0@, word.1@)) == line_words(line@),
{
    WordSeparator::new()
        .find_words(line)
        .map(|word| (word.word.to_string(), word.whitespace.to_string()))
        .collect()
}

/// `Hyphenator::hyphenate`, with the American English dictionary that is part of the program. There
/// is one such dictionary, so the places go by the word alone; which they are is not stated, only
/// named.
#[verifier::external_body]
fn find_breaks(word: &str, dictionary: &Standard) -> (breaks: Vec<usize>)
    requires
        is_english(*dictionary),
    ensures
        breaks@ == english_breaks(word@),
{
    dictionary.hyphenate(word).breaks
}

/// `textwrap::fill` with words broken where they have to be, and with the American English
/// dictionary that is part of the program. There is one such dictionary, so the result goes by the
/// text and the width alone; what it is for given ones is not stated, only named.
///
/// In a line that is not short, it cuts each word at its places. It panics where one of them is not
/// between two characters, or comes before the place before. Where the last place is the end of a
/// word, the spaces after the word are lost, and what comes after them on the line is cut as many
/// bytes too early: it panics where it then cuts a character in two. That cannot be where there are
/// no more words, or only words of single-byte characters.
#[verifier::external_body]
fn fill(text: &str, width: usize, dictionary: Standard) -> (lines: String)
    requires
        is_english(dictionary),
        divides_well(text@, width),
    ensures
        lines@ == filled(text@, width),
{
    let splitter = WordSplitter::Hyphenation(dictionary);
    textwrap::fill(text, Options::new(width).break_words(true).word_splitter(splitter))
}

/// Each place is between two characters of the word, or at an end of it, and none comes before the
/// one before.
pub open spec fn divides_cleanly(word: Seq<char>, breaks: Seq<usize>) -> bool {
    &&& forall|i: int|
        0 <= i < breaks.len() ==> vstd::utf8::is_char_boundary(
            vstd::utf8::encode_utf8(word),
            #[trigger] breaks[i] as int,
        )
    &&& forall|i: int, j: int|
        0 <= i < j < breaks.len() ==> #[trigger] breaks[i] <= #[trigger] breaks[j]
}

/// The last place is the end of the word, and the word has spaces after it, which are lost then.
pub open spec fn loses_spaces(
    word: Seq<char>,
    spaces: Seq<char>,
    breaks: Seq<usize>,
) -> bool {
    let len = vstd::utf8::encode_utf8(word).len();
    len > 0 && spaces.len() > 0 && breaks.len() > 0 && breaks.last() == len
}

/// The words are divided cleanly, and those after lost spaces are of single-byte characters.
pub open spec fn words_divide_well(words: Seq<(Seq<char>, Seq<char>)>) -> bool {
    &&& forall|i: int|
        0 <= i < words.len() ==> divides_cleanly(
            (#[trigger] words[i]).0,
            english_breaks(words[i].0),
        )
    &&& forall|i: int, j: int|
        0 <= i < j < words.len() && loses_spaces(
            (#[trigger] words[i]).0,
            words[i].1,
            english_breaks(words[i].0),
        ) ==> vstd::utf8::is_ascii_chars((#[trigger] words[j]).0)
}

/// The line is short, and is not divided, or its words are divided well.
pub open spec fn line_divides_well(line: Seq<char>, width: usize) -> bool {
    vstd::utf8::encode_utf8(line).len() < width || words_divide_well(line_words(line))
}

/// All lines of the text are short, or their words are divided well. The dictionary looks for the
/// places in lower case, in which some characters take fewer bytes or more.
pub open spec fn divides_well(text: Seq<char>, width: usize) -> bool {
    forall|i: int|
        0 <= i < crate::text::split(text, '\n').len() ==> line_divides_well(
            #[trigger] crate::text::split(text, '\n')[i],
            width,
        )
}

/// The dictionary could not be loaded.
#[derive(Debug)]
pub struct DictionaryError {
    pub cause: hyphenation::load::Error,
}

/// Whether a word is divided cleanly.
fn is_cleanly_divided(word: &str, breaks: &Vec<usize>) -> (clean: bool)
    ensures
        clean == divides_cleanly(word@, breaks@),
{
    let mut i: usize = 0;
    while i < breaks.len()
        invariant
            i <= breaks@.len(),
            forall|j: int|
                0 <= j < i ==> vstd::utf8::is_char_boundary(
                    vstd::utf8::encode_utf8(word@),
                    #[trigger] breaks@[j] as int,
                ),
            forall|j: int, k: int|
                0 <= j < k < i ==> #[trigger] breaks@[j] <= #[trigger] breaks@[k],
        decreases breaks@.len() - i,
    {
        if !word.is_char_boundary(breaks[i]) || (i > 0 && breaks[i] < breaks[i - 1]) {
            return false;
        }
        i += 1;
    }
    true
}

/// Whether the spaces after a word are lost.
fn is_cut_at_end(word: &str, spaces: &str, breaks: &Vec<usize>) -> (lost: bool)
    ensures
        lost == loses_spaces(word@, spaces@, breaks@),
{
    let len = word.as_bytes().len();
    len > 0 && !spaces.is_empty() && breaks.len() > 0 && breaks[breaks.len() - 1] == len
}

/// Whether a line can be broken into shorter ones.
fn can_wrap_line(line: &str, line_length: usize, dictionary: &Standard) -> (can: bool)
    requires
        is_english(*dictionary),
    ensures
        can == line_divides_well(line@, line_length),
{
    if line.as_bytes().len() < line_length {
        return true;
    }
    let words = find_words(line);
    let ghost all = line_words(line@);
    let ghost mut loser: int = 0;
    let mut lost = false;
    let mut i: usize = 0;
    while i < words.len()
        invariant
            is_english(*dictionary),
            line_length <= vstd::utf8::encode_utf8(line@).len(),
            all == line_words(line@),
            i <= words@.len(),
            words@.map_values(|word: (String, String)| (word.0@, word.1@)) == all,
            words_divide_well(all.take(i as int)),
            lost ==> 0 <= loser < i && loses_spaces(
                all[loser].0,
                all[loser].1,
                english_breaks(all[loser].0),
            ),
            !lost ==> forall|j: int|
                0 <= j < i ==> !loses_spaces(
                    (#[trigger] all[j]).0,
                    all[j].1,
                    english_breaks(all[j].0),
                ),
        decreases words@.len() - i,
    {
        let word = words[i].0.as_str();
        assert(all[i as int] == (word@, words@[i as int].1@));
        let breaks = find_breaks(word, dictionary);
        if !is_cleanly_divided(word, &breaks) || (lost && !word.is_ascii()) {
            return false;
        }
        assert(words_divide_well(all.take(i + 1))) by {
            assert(forall|j: int|
                0 <= j < i ==> all.take(i + 1)[j] == #[trigger] all.take(i as int)[j]);
        }
        if !lost && is_cut_at_end(word, words[i].1.as_str(), &breaks) {
            lost = true;
            proof {
                loser = i as int;
            }
        }
        i += 1;
    }
    assert(all.take(i as int) =~= all);
    true
}

/// Whether a text can be broken into lines with the dictionary for American English.
pub fn can_wrap_with(content: &str, line_length: usize, dictionary: &Standard) -> (can: bool)
    requires
        is_english(*dictionary),
    ensures
        can == divides_well(content@, line_length),
{
    let len = content.unicode_len();
    let ghost mut done: Seq<Seq<char>> = Seq::empty();
    let mut start: usize = 0;
    let mut i: usize = 0;
    assert(content@.subrange(0, 0) =~= Seq::empty());
    assert(crate::text::split(content@.take(0), '\n') =~= done.push(content@.subrange(0, 0)));
    while i < len
        invariant
            is_english(*dictionary),
            len == content@.len(),
            start <= i <= len,
            crate::text::split(content@.take(i as int), '\n') == done.push(
                content@.subrange(start as int, i as int),
            ),
            forall|j: int|
                0 <= j < done.len() ==> line_divides_well(#[trigger] done[j], line_length),
        decreases len - i,
    {
        let ghost line = content@.subrange(start as int, i as int);
        assert(content@.take(i + 1).drop_last() =~= content@.take(i as int));
        if content.get_char(i) == '\n' {
            if !can_wrap_line(content.substring_char(start, i), line_length, dictionary) {
                proof {
                    lemma_split_starts_with(content@, '\n', i as int);
                    let at = done.len() as int;
                    assert(crate::text::split(content@.take(i + 1), '\n')[at] == line);
                    lemma_split_starts_with(content@, '\n', i + 1);
                    assert(crate::text::split(content@, '\n')[at] == line);
                }
                return false;
            }
            proof {
                done = done.push(line);
            }
            start = i + 1;
            assert(content@.subrange(start as int, i + 1) =~= Seq::empty());
        } else {
            assert(content@.subrange(start as int, i + 1) =~= line.push(content@[i as int]));
            assert(done.push(line).drop_last() =~= done);
        }
        i += 1;
    }
    assert(content@.take(i as int) =~= content@);
    let can = can_wrap_line(content.substring_char(start, len), line_length, dictionary);
    proof {
        let lines = crate::text::split(content@, '\n');
        assert(lines[done.len() as int] == content@.subrange(start as int, len as int));
        assert(forall|j: int| 0 <= j < done.len() ==> lines[j] == done[j]);
    }
    can
}

/// The pieces of the start of a sequence, but for the last, are the first ones of the sequence.
proof fn lemma_split_starts_with(all: Seq<char>, separator: char, n: int)
    requires
        0 <= n <= all.len(),
    ensures
        crate::text::split(all.take(n), separator).len() <= crate::text::split(
            all,
            separator,
        ).len(),
        crate::text::split(all.take(n), separator).len() > 0,
        forall|i: int|
            0 <= i < crate::text::split(all.take(n), separator).len() - 1
                ==> #[trigger] crate::text::split(all, separator)[i] == crate::text::split(
                all.take(n),
                separator,
            )[i],
    decreases all.len(),
{
    if n < all.len() {
        assert(all.drop_last().take(n) =~= all.take(n));
        lemma_split_starts_with(all.drop_last(), separator, n);
    } else {
        assert(all.take(n) =~= all);
        if all.len() > 0 {
            lemma_split_starts_with(all.drop_last(), separator, n - 1);
        }
    }
}

/// Loads the dictionary for American English.
pub fn load_english() -> (loaded: Result<Standard, DictionaryError>)
    ensures
        match loaded {
            Ok(dictionary) => is_english(dictionary),
            Err(error) => fails_with(error.cause),
        },
{
    match load_dictionary() {
        Ok(dictionary) => {
            assert(is_english(dictionary));
            Ok(dictionary)
        },
        Err(cause) => {
            assert(fails_with(cause));
            Err(DictionaryError { cause })
        },
    }
}

/// Breaks a text into lines, once it was tried to load the dictionary.
pub fn wrap_with(
    content: &str,
    line_length: usize,
    loaded: Result<Standard, DictionaryError>,
) -> (wrapped: Result<String, DictionaryError>)
    requires
        divides_well(content@, line_length),
        loaded matches Ok(dictionary) ==> is_english(dictionary),
    ensures
        match loaded {
            Ok(_) => wrapped matches Ok(lines) && lines@ == filled(content@, line_length),
            Err(error) => wrapped == Err::<String, DictionaryError>(error),
        },
{
    match loaded {
        Ok(dictionary) => Ok(fill(content, line_length, dictionary)),
        Err(error) => Err(error),
    }
}

/// Breaks a text into lines. This only fails where the dictionary does not load.
pub fn word_wrap(content: &str, line_length: usize) -> (wrapped: Result<String, DictionaryError>)
    requires
        divides_well(content@, line_length),
    ensures
        match wrapped {
            Ok(lines) => lines@ == filled(content@, line_length),
            Err(error) => fails_with(error.cause),
        },
{
    wrap_with(content, line_length, load_english())
}

/// Whether a text can be broken into lines.
pub fn can_wrap(content: &str, line_length: usize) -> (can: Result<bool, DictionaryError>)
    ensures
        match can {
            Ok(can) => can == divides_well(content@, line_length),
            Err(error) => fails_with(error.cause),
        },
{
    match load_english() {
        Ok(dictionary) => Ok(can_wrap_with(content, line_length, &dictionary)),
        Err(error) => Err(error),
    }
}

/// Breaks a text into lines, if that can be done.
pub fn try_word_wrap(content: &str, line_length: usize) -> (wrapped: Option<
    Result<String, DictionaryError>,
>)
    ensures
        match wrapped {
            Some(Ok(lines)) => divides_well(content@, line_length) && lines@ == filled(
                content@,
                line_length,
            ),
            Some(Err(error)) => fails_with(error.cause),
            None => !divides_well(content@, line_length),
        },
{
    match can_wrap(content, line_length) {
        Ok(true) => Some(word_wrap(content, line_length)),
        Ok(false) => None,
        Err(error) => Some(Err(error)),
    }
}

/// A text can be wrapped if each of its lines can: one with fewer bytes than the width always, and
/// any other if its words are cut between characters only, from the front to the back, and if all
/// words after one that is cut at its end and loses the spaces after it are in ASCII.
pub proof fn law_divides_well_in_detail(text: Seq<char>, width: usize)
    ensures
        divides_well(text, width) <==> forall|i: int|
            0 <= i < crate::text::split(text, '\n').len() ==> {
                let line = #[trigger] crate::text::split(text, '\n')[i];
                let words = line_words(line);
                vstd::utf8::encode_utf8(line).len() >= width ==> {
                    &&& forall|w: int, b: int|
                        0 <= w < words.len() && 0 <= b < english_breaks(words[w].0).len()
                            ==> vstd::utf8::is_char_boundary(
                            vstd::utf8::encode_utf8(words[w].0),
                            #[trigger] english_breaks(words[w].0)[b] as int,
                        )
                    &&& forall|w: int, b: int, c: int|
                        0 <= w < words.len() && 0 <= b < c < english_breaks(words[w].0).len()
                            ==> #[trigger] english_breaks(words[w].0)[b]
                            <= #[trigger] english_breaks(words[w].0)[c]
                    &&& forall|v: int, w: int|
                        0 <= v < w < words.len() && vstd::utf8::encode_utf8(
                            (#[trigger] words[v]).0,
                        ).len() > 0 && words[v].1.len() > 0 && english_breaks(words[v].0).len() > 0
                            && english_breaks(words[v].0).last() == vstd::utf8::encode_utf8(
                            words[v].0,
                        ).len() ==> vstd::utf8::is_ascii_chars((#[trigger] words[w]).0)
                }
            },
{
    assert forall|i: int| 0 <= i < crate::text::split(text, '\n').len() implies line_divides_well(
        #[trigger] crate::text::split(text, '\n')[i],
        width,
    ) == {
        let line = crate::text::split(text, '\n')[i];
        let words = line_words(line);
        vstd::utf8::encode_utf8(line).len() >= width ==> {
            &&& forall|w: int, b: int|
                0 <= w < words.len() && 0 <= b < english_breaks(words[w].0).len()
                    ==> vstd::utf8::is_char_boundary(
                    vstd::utf8::encode_utf8(words[w].0),
                    #[trigger] english_breaks(words[w].0)[b] as int,
                )
            &&& forall|w: int, b: int, c: int|
                0 <= w < words.len() && 0 <= b < c < english_breaks(words[w].0).len()
                    ==> #[trigger] english_breaks(words[w].0)[b] <= #[trigger] english_breaks(
                    words[w].0,
                )[c]
            &&& forall|v: int, w: int|
                0 <= v < w < words.len() && vstd::utf8::encode_utf8(
                    (#[trigger] words[v]).0,
                ).len() > 0 && words[v].1.len() > 0 && english_breaks(words[v].0).len() > 0
                    && english_breaks(words[v].0).last() == vstd::utf8::encode_utf8(
                    words[v].0,
                ).len() ==> vstd::utf8::is_ascii_chars((#[trigger] words[w]).0)
        }
    } by {}
}

} // verus!
