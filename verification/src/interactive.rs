//! Answers typed at a prompt: what to ask, and what an answer means.
//!
//! Nothing here reads or prints. Each question comes as a pair: a function
//! that words the prompt, and one that takes the line that was typed.

use crate::author::Author;
use crate::label::Label;
use crate::tag::Tag;
use crate::text::{append, lowercase, split, split_by, texts_of, to_lowercase, trim, trimmed};
use vstd::prelude::*;

verus! {

/// A value that can be read from a text.
pub trait FromText: Sized {
    /// What a value of this type stands for.
    type Model;

    /// What the value stands for.
    spec fn model(&self) -> Self::Model;

    /// What `text` reads as, or `None` where it cannot be read.
    spec fn parsed(text: Seq<char>) -> Option<Self::Model>;

    /// Whether what was read stands for "nothing entered".
    spec fn is_blank(m: Self::Model) -> bool;

    /// Reads `text`; `None` where it cannot be read.
    fn from_text(text: &str) -> (r: Option<Self>)
        ensures
            r is Some <==> Self::parsed(text@) is Some,
            r matches Some(v) ==> Self::parsed(text@) == Some(v.model()),
    ;

    /// Whether the value stands for "nothing entered".
    fn blank(&self) -> (r: bool)
        ensures
            r == Self::is_blank(self.model()),
    ;
}

impl FromText for String {
    type Model = Seq<char>;

    open spec fn model(&self) -> Seq<char> {
        self@
    }

    open spec fn parsed(text: Seq<char>) -> Option<Seq<char>> {
        Some(text)
    }

    open spec fn is_blank(m: Seq<char>) -> bool {
        m.len() == 0
    }

    fn from_text(text: &str) -> (r: Option<String>) {
        Some(text.to_owned())
    }

    fn blank(&self) -> (r: bool) {
        self.as_str().unicode_len() == 0
    }
}

impl FromText for Author {
    type Model = Seq<char>;

    open spec fn model(&self) -> Seq<char> {
        self@
    }

    open spec fn parsed(text: Seq<char>) -> Option<Seq<char>> {
        Some(trimmed(text))
    }

    open spec fn is_blank(m: Seq<char>) -> bool {
        m.len() == 0
    }

    fn from_text(text: &str) -> (r: Option<Author>) {
        Some(Author::new(text))
    }

    fn blank(&self) -> (r: bool) {
        self.name().unicode_len() == 0
    }
}

impl FromText for Tag {
    type Model = Seq<char>;

    open spec fn model(&self) -> Seq<char> {
        self@
    }

    open spec fn parsed(text: Seq<char>) -> Option<Seq<char>> {
        if Tag::accepts(text) {
            Some(trimmed(text))
        } else {
            None
        }
    }

    open spec fn is_blank(m: Seq<char>) -> bool {
        m.len() == 0
    }

    fn from_text(text: &str) -> (r: Option<Tag>) {
        Tag::parse(text)
    }

    fn blank(&self) -> (r: bool) {
        self.key().unicode_len() == 0
    }
}

impl FromText for Label {
    type Model = (Seq<char>, crate::primitive::Scalar);

    open spec fn model(&self) -> (Seq<char>, crate::primitive::Scalar) {
        self@
    }

    open spec fn parsed(text: Seq<char>) -> Option<(Seq<char>, crate::primitive::Scalar)> {
        match Label::parsed(text) {
            Ok(l) => Some(l),
            Err(_) => None,
        }
    }

    open spec fn is_blank(m: (Seq<char>, crate::primitive::Scalar)) -> bool {
        false
    }

    fn from_text(text: &str) -> (r: Option<Label>) {
        match Label::from_str(text) {
            Ok(l) => Some(l),
            Err(_) => None,
        }
    }

    fn blank(&self) -> (r: bool) {
        false
    }
}

/// An answer that cannot be read as what was asked for.
#[derive(Clone, Copy, Debug, PartialEq, Eq, Structural)]
pub enum InputError {
    /// The answer, or the default that stands in for it, cannot be read.
    Unreadable,
}

/// The prompt as it is printed: `prompt`, a colon and a space.
pub fn input_prompt(prompt: &str) -> (r: String)
    ensures
        r@ == prompt@ + ": "@,
{
    append(prompt, ": ")
}

/// The prompt for an answer with a default: `prompt [default]`.
pub fn default_prompt(prompt: &str, default: &str) -> (r: String)
    ensures
        r@ == prompt@ + " ["@ + default@ + "]"@,
{
    let a = append(prompt, " [");
    let b = append(a.as_str(), default);
    append(b.as_str(), "]")
}

/// The prompt for an answer that may be left out: `prompt (optional)`.
pub fn optional_prompt(prompt: &str) -> (r: String)
    ensures
        r@ == prompt@ + " (optional)"@,
{
    append(prompt, " (optional)")
}

/// The prompt for a list of answers: `prompt (separated by 'sep')`.
pub fn vec_prompt(prompt: &str, sep: &str) -> (r: String)
    ensures
        r@ == prompt@ + " (separated by '"@ + sep@ + "')"@,
{
    let a = append(prompt, " (separated by '");
    let b = append(a.as_str(), sep);
    append(b.as_str(), "')")
}

/// The prompt for a yes or no, the default in capitals: `prompt [Y/n]` or `prompt [y/N]`.
pub fn bool_prompt(prompt: &str, default: bool) -> (r: String)
    ensures
        r@ == prompt@ + if default {
            " [Y/n]"@
        } else {
            " [y/N]"@
        },
{
    if default {
        append(prompt, " [Y/n]")
    } else {
        append(prompt, " [y/N]")
    }
}

/// What the whole of an answer reads as, once the whitespace around it is gone.
pub open spec fn answer_of<T: FromText>(line: Seq<char>) -> Option<T::Model> {
    T::parsed(trimmed(line))
}

/// Get a line of input converted to a `FromText` type: the line without the
/// whitespace around it, read as `T`.
pub fn input<T: FromText>(line: &str) -> (r: Result<T, InputError>)
    ensures
        r is Ok <==> answer_of::<T>(line@) is Some,
        r matches Ok(v) ==> answer_of::<T>(line@) == Some(v.model()),
{
    let answer = trim(line);
    match T::from_text(answer.as_str()) {
        Some(v) => Ok(v),
        None => Err(InputError::Unreadable),
    }
}

/// What an answer with a default reads as: the answer itself where it can
/// be read and is not blank, what the default reads as otherwise.
pub open spec fn answer_or_default<T: FromText>(line: Seq<char>, default: Seq<char>) -> Option<
    T::Model,
> {
    match answer_of::<T>(line) {
        Some(m) => if T::is_blank(m) {
            T::parsed(default)
        } else {
            Some(m)
        },
        None => T::parsed(default),
    }
}

/// Get a line of input converted to a `FromText` type, or the default value.
pub fn input_default<T: FromText>(line: &str, default: &str) -> (r: Result<T, InputError>)
    ensures
        r is Ok <==> answer_or_default::<T>(line@, default@) is Some,
        r matches Ok(v) ==> answer_or_default::<T>(line@, default@) == Some(v.model()),
{
    let answer = trim(line);
    if let Some(v) = T::from_text(answer.as_str()) {
        if !v.blank() {
            return Ok(v);
        }
    }
    match T::from_text(default) {
        Some(v) => Ok(v),
        None => Err(InputError::Unreadable),
    }
}

/// Get a line of input converted to a `FromText` type if there was any:
/// nothing for an empty answer.
pub fn input_opt<T: FromText>(line: &str) -> (r: Result<Option<T>, InputError>)
    ensures
        match r {
            Ok(None) => trimmed(line@).len() == 0,
            Ok(Some(v)) => trimmed(line@).len() > 0 && answer_of::<T>(line@) == Some(v.model()),
            Err(_) => trimmed(line@).len() > 0 && answer_of::<T>(line@) is None,
        },
{
    let answer = trim(line);
    if answer.as_str().unicode_len() == 0 {
        Ok(None)
    } else {
        match T::from_text(answer.as_str()) {
            Some(v) => Ok(Some(v)),
            None => Err(InputError::Unreadable),
        }
    }
}

/// The pieces of `text` between occurrences of `sep` that are not empty, in their order.
pub open spec fn filled_pieces(text: Seq<char>, sep: Seq<char>) -> Seq<Seq<char>> {
    split_by(text, sep).filter(|p: Seq<char>| p.len() > 0)
}

/// What the values stand for, in order.
pub open spec fn models_of<T: FromText>(values: Seq<T>) -> Seq<T::Model> {
    values.map_values(|v: T| v.model())
}

/// What a list of pieces reads as: what each piece reads as, or `None`
/// where one of them cannot be read.
pub open spec fn pieces_read<T: FromText>(pieces: Seq<Seq<char>>) -> Option<Seq<T::Model>>
    decreases pieces.len(),
{
    if pieces.len() == 0 {
        Some(Seq::empty())
    } else {
        match (pieces_read::<T>(pieces.drop_last()), T::parsed(pieces.last())) {
            (Some(before), Some(m)) => Some(before.push(m)),
            _ => None,
        }
    }
}

/// If a piece cannot be read, neither can any list that begins with the
/// pieces up to it.
proof fn lemma_unreadable_piece<T: FromText>(pieces: Seq<Seq<char>>, n: int)
    requires
        0 < n <= pieces.len(),
        pieces_read::<T>(pieces.take(n)) is None,
    ensures
        pieces_read::<T>(pieces) is None,
    decreases pieces.len() - n,
{
    if n < pieces.len() {
        assert(pieces.drop_last().take(n) == pieces.take(n));
        lemma_unreadable_piece::<T>(pieces.drop_last(), n);
    } else {
        assert(pieces.take(n) == pieces);
    }
}

/// Reads every piece of `text` between occurrences of `sep` that is not empty.
pub fn read_pieces<T: FromText>(text: &str, sep: &str) -> (r: Result<Vec<T>, InputError>)
    ensures
        r is Ok <==> pieces_read::<T>(filled_pieces(text@, sep@)) is Some,
        r matches Ok(v) ==> pieces_read::<T>(filled_pieces(text@, sep@)) == Some(models_of(v@)),
{
    let pieces = split(text, sep);
    let ghost all = texts_of(pieces@);
    let ghost keep = |p: Seq<char>| p.len() > 0;
    let mut out: Vec<T> = Vec::new();
    let mut i: usize = 0;
    proof {
        reveal(Seq::filter);
        assert(all.take(0) == Seq::<Seq<char>>::empty());
        assert(models_of(out@) =~= Seq::<T::Model>::empty());
    }
    while i < pieces.len()
        invariant
            i <= pieces.len(),
            all == texts_of(pieces@),
            all == split_by(text@, sep@),
            keep == |p: Seq<char>| p.len() > 0,
            pieces_read::<T>(all.take(i as int).filter(keep)) == Some(models_of(out@)),
        decreases pieces.len() - i,
    {
        let piece = pieces[i].as_str();
        let ghost done = all.take(i as int).filter(keep);
        proof {
            assert(all.take(i + 1) == all.take(i as int).push(all[i as int]));
            all.take(i as int).lemma_filter_push(all[i as int], keep);
        }
        if piece.unicode_len() > 0 {
            let ghost next = done.push(all[i as int]);
            assert(next.drop_last() == done);
            match T::from_text(piece) {
                Some(v) => {
                    let ghost before = models_of(out@);
                    out.push(v);
                    assert(models_of(out@) =~= before.push(v.model()));
                },
                None => {
                    proof {
                        assert(pieces_read::<T>(next) is None);
                        let kept = all.filter(keep);
                        assert(all.take(i + 1).is_prefix_of(all));
                        all.take(i + 1).lemma_filter_monotone(all, keep);
                        assert(kept.take(next.len() as int) == next);
                        lemma_unreadable_piece::<T>(kept, next.len() as int);
                    }
                    return Err(InputError::Unreadable);
                },
            }
        }
        i += 1;
    }
    assert(all.take(pieces.len() as int) == all);
    Ok(out)
}

/// Get a line of input converted to a list of a `FromText` type: every piece
/// of the answer between occurrences of `sep` that is not empty.
pub fn input_vec<T: FromText>(line: &str, sep: &str) -> (r: Result<Vec<T>, InputError>)
    ensures
        r is Ok <==> pieces_read::<T>(filled_pieces(trimmed(line@), sep@)) is Some,
        r matches Ok(v) ==> pieces_read::<T>(filled_pieces(trimmed(line@), sep@)) == Some(
            models_of(v@),
        ),
{
    let answer = trim(line);
    read_pieces(answer.as_str(), sep)
}

/// What a list of answers with a default reads as: the pieces of the answer
/// where it holds any, the pieces of the default otherwise.
pub open spec fn pieces_or_default<T: FromText>(
    line: Seq<char>,
    sep: Seq<char>,
    default: Seq<char>,
) -> Option<Seq<T::Model>> {
    if filled_pieces(trimmed(line), sep).len() > 0 {
        pieces_read::<T>(filled_pieces(trimmed(line), sep))
    } else {
        pieces_read::<T>(filled_pieces(default, sep))
    }
}

/// Get a line of input converted to a list of a `FromText` type, or the
/// pieces of `default` where the answer holds none.
pub fn input_vec_default<T: FromText>(line: &str, sep: &str, default: &str) -> (r: Result<
    Vec<T>,
    InputError,
>)
    ensures
        r is Ok <==> pieces_or_default::<T>(line@, sep@, default@) is Some,
        r matches Ok(v) ==> pieces_or_default::<T>(line@, sep@, default@) == Some(models_of(v@)),
{
    match input_vec::<T>(line, sep) {
        Ok(v) => if v.len() == 0 {
            proof {
                lemma_read_keeps_length::<T>(filled_pieces(trimmed(line@), sep@));
            }
            read_pieces(default, sep)
        } else {
            proof {
                lemma_read_keeps_length::<T>(filled_pieces(trimmed(line@), sep@));
            }
            Ok(v)
        },
        Err(e) => {
            proof {
                if filled_pieces(trimmed(line@), sep@).len() == 0 {
                    assert(pieces_read::<T>(filled_pieces(trimmed(line@), sep@)) is Some);
                }
            }
            Err(e)
        },
    }
}

/// A list that can be read gives one value for each piece.
proof fn lemma_read_keeps_length<T: FromText>(pieces: Seq<Seq<char>>)
    ensures
        pieces_read::<T>(pieces) matches Some(ms) ==> ms.len() == pieces.len(),
    decreases pieces.len(),
{
    if pieces.len() > 0 {
        lemma_read_keeps_length::<T>(pieces.drop_last());
    }
}

/// What an answer to a yes or no means, once it is in lowercase: `y` and
/// `yes` mean yes, `n` and `no` mean no; anything else means the default.
pub open spec fn answered(lowered: Seq<char>, default: bool) -> bool {
    if lowered == "y"@ || lowered == "yes"@ {
        true
    } else if lowered == "n"@ || lowered == "no"@ {
        false
    } else {
        default
    }
}

/// What the answer `lowered`, which is in lowercase, means.
pub fn answer_means(lowered: &str, default: bool) -> (r: bool)
    ensures
        r == answered(lowered@, default),
{
    if *lowered == *"y" || *lowered == *"yes" {
        true
    } else if *lowered == *"n" || *lowered == *"no" {
        false
    } else {
        default
    }
}

/// Get a yes or no from a line of input, in any case of letters.
pub fn input_bool(line: &str, default: bool) -> (r: bool)
    ensures
        r == answered(lowercase(trimmed(line@)), default),
{
    let answer = trim(line);
    let lowered = to_lowercase(answer.as_str());
    answer_means(lowered.as_str(), default)
}

} // verus!
