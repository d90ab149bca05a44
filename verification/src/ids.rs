//! Lists of ids, as they are entered on a command line: `1`, `1,2`, `1-4,6`.

use crate::text::{
    append, chars_of, decimal, decimal_of, join, joined_by, split, split_by, string_of_range,
    texts_of,
};
use vstd::prelude::*;

verus! {

/// Why a text is no number.
#[derive(Clone, Copy, Debug, PartialEq, Eq, Structural)]
pub enum IntError {
    /// The text is empty.
    Empty,
    /// The text holds something that is no digit, or only a sign.
    InvalidDigit,
    /// The number is too large.
    PosOverflow,
    /// The number is too small.
    NegOverflow,
}

/// Whether `c` is one of `0` to `9`.
pub open spec fn is_digit(c: char) -> bool {
    '0' <= c <= '9'
}

/// The number of digits that `s` begins with.
pub open spec fn digit_run(s: Seq<char>) -> int
    decreases s.len(),
{
    if s.len() > 0 && is_digit(s[0]) {
        1 + digit_run(s.drop_first())
    } else {
        0
    }
}

/// The number that the digits of `s` write in decimal.
pub open spec fn digits_value(s: Seq<char>) -> int
    decreases s.len(),
{
    if s.len() == 0 {
        0
    } else {
        digits_value(s.drop_last()) * 10 + (s.last() as u32 - '0' as u32)
    }
}

/// What a text reads as: an optional sign, then digits, the whole within the
/// range of `i32`. A number out of range is reported before anything that
/// follows its digits.
pub open spec fn parsed_int(s: Seq<char>) -> Result<i32, IntError> {
    if s.len() == 0 {
        Err(IntError::Empty)
    } else {
        let negative = s[0] == '-';
        let digits = if s[0] == '+' || s[0] == '-' {
            s.skip(1)
        } else {
            s
        };
        let run = digits.take(digit_run(digits));
        if digits.len() == 0 {
            Err(IntError::InvalidDigit)
        } else if !negative && digits_value(run) > i32::MAX {
            Err(IntError::PosOverflow)
        } else if negative && -digits_value(run) < i32::MIN {
            Err(IntError::NegOverflow)
        } else if run.len() < digits.len() {
            Err(IntError::InvalidDigit)
        } else if negative {
            Ok((-digits_value(run)) as i32)
        } else {
            Ok(digits_value(run) as i32)
        }
    }
}

/// The digit run of `s` is at least `n` long if `s` begins with `n` digits,
/// and exactly `n` long if no digit follows them.
proof fn lemma_digit_run(s: Seq<char>, n: int)
    requires
        0 <= n <= s.len(),
        forall|i: int| 0 <= i < n ==> is_digit(#[trigger] s[i]),
        n < s.len() ==> !is_digit(s[n]),
    ensures
        digit_run(s) == n,
    decreases n,
{
    if n > 0 {
        lemma_digit_run(s.drop_first(), n - 1);
    }
}

/// A run of digits is never negative, and grows with every digit.
proof fn lemma_digits_value_grows(s: Seq<char>, n: int)
    requires
        0 <= n <= s.len(),
        forall|i: int| 0 <= i < s.len() ==> is_digit(#[trigger] s[i]),
    ensures
        0 <= digits_value(s.take(n)) <= digits_value(s),
    decreases s.len() - n,
{
    if n == s.len() {
        assert(s.take(n) == s);
        lemma_digits_nonnegative(s);
    } else {
        lemma_digits_value_grows(s.drop_last(), n);
        assert(s.drop_last().take(n) == s.take(n));
        lemma_digits_nonnegative(s.drop_last());
    }
}

/// A run of digits is never negative.
proof fn lemma_digits_nonnegative(s: Seq<char>)
    requires
        forall|i: int| 0 <= i < s.len() ==> is_digit(#[trigger] s[i]),
    ensures
        0 <= digits_value(s),
    decreases s.len(),
{
    if s.len() > 0 {
        lemma_digits_nonnegative(s.drop_last());
    }
}

/// Reads `s` as a number.
pub fn parse_int(s: &str) -> (r: Result<i32, IntError>)
    ensures
        r == parsed_int(s@),
{
    let v = chars_of(s);
    if v.len() == 0 {
        return Err(IntError::Empty);
    }
    let negative = v[0] == '-';
    let first: usize = if v[0] == '+' || v[0] == '-' {
        1
    } else {
        0
    };
    let ghost digits = v@.skip(first as int);
    assert(first == 0 ==> digits == v@);
    if first == v.len() {
        return Err(IntError::InvalidDigit);
    }
    let mut acc: i64 = 0;
    let mut over = false;
    let mut i: usize = first;
    assert(digits.take(0) == Seq::<char>::empty());
    while i < v.len() && v[i] >= '0' && v[i] <= '9'
        invariant
            first <= i <= v.len(),
            digits == v@.skip(first as int),
            forall|k: int| 0 <= k < i - first ==> is_digit(#[trigger] digits[k]),
            !over ==> 0 <= acc <= 0x8000_0000 && acc == digits_value(digits.take(i - first)),
            over ==> digits_value(digits.take(i - first)) > 0x8000_0000,
        decreases v.len() - i,
    {
        let c = v[i];
        let d: i64 = (c as u32 - '0' as u32) as i64;
        proof {
            let next = digits.take(i - first + 1);
            assert(next.drop_last() == digits.take(i - first));
            assert(next.last() == c);
            assert(digits[i - first] == c);
        }
        if !over {
            acc = acc * 10 + d;
            if acc > 0x8000_0000 {
                over = true;
            }
        }
        i += 1;
    }
    proof {
        let n = i - first;
        assert(i < v.len() ==> digits[n] == v@[i as int]);
        lemma_digit_run(digits, n);
    }
    if over {
        if negative {
            Err(IntError::NegOverflow)
        } else {
            Err(IntError::PosOverflow)
        }
    } else if !negative && acc > 0x7fff_ffff {
        Err(IntError::PosOverflow)
    } else if i < v.len() {
        Err(IntError::InvalidDigit)
    } else if negative {
        Ok((-acc) as i32)
    } else {
        Ok(acc as i32)
    }
}

/// Why a number could not be read, in words.
pub open spec fn reason_of(e: IntError) -> Seq<char> {
    match e {
        IntError::Empty => "cannot parse integer from empty string"@,
        IntError::InvalidDigit => "invalid digit found in string"@,
        IntError::PosOverflow => "number too large to fit in target type"@,
        IntError::NegOverflow => "number too small to fit in target type"@,
    }
}

impl IntError {
    /// Why the number could not be read, in words.
    pub fn reason(&self) -> (r: &'static str)
        ensures
            r@ == reason_of(*self),
    {
        match self {
            IntError::Empty => "cannot parse integer from empty string",
            IntError::InvalidDigit => "invalid digit found in string",
            IntError::PosOverflow => "number too large to fit in target type",
            IntError::NegOverflow => "number too small to fit in target type",
        }
    }
}

/// `n` in decimal, with `-` before a negative number.
pub open spec fn int_text_of(n: int) -> Seq<char> {
    if n < 0 {
        seq!['-'] + decimal_of((-n) as nat)
    } else {
        decimal_of(n as nat)
    }
}

/// `n` in decimal.
pub fn int_text(n: i32) -> (r: String)
    ensures
        r@ == int_text_of(n as int),
{
    if n < 0 {
        proof {
            reveal_strlit("-");
            assert("-"@ == seq!['-']);
        }
        let digits = decimal((-(n as i64)) as u64);
        append("-", digits.as_str())
    } else {
        decimal(n as u64)
    }
}

/// List of ids, supporting nice parsing from cli.
///
/// - 1
/// - 1,2
/// - 1-4,6
#[derive(Debug, Clone, PartialEq, Eq)]
pub struct Ids(pub Vec<i32>);

/// Why a text is no list of ids.
#[derive(Debug, Clone, PartialEq, Eq)]
pub enum IdsError {
    /// The text is empty.
    NoIds,
    /// A piece of the text is no number.
    Invalid { token: String, error: IntError },
}

/// What an [`IdsError`] holds.
pub enum IdsErrorView {
    NoIds,
    Invalid { token: Seq<char>, error: IntError },
}

impl View for IdsError {
    type V = IdsErrorView;

    open spec fn view(&self) -> IdsErrorView {
        match self {
            IdsError::NoIds => IdsErrorView::NoIds,
            IdsError::Invalid { token, error } => IdsErrorView::Invalid {
                token: token@,
                error: *error,
            },
        }
    }
}

/// An error in words.
pub open spec fn message_of(e: IdsErrorView) -> Seq<char> {
    match e {
        IdsErrorView::NoIds => "No ids found"@,
        IdsErrorView::Invalid { token, error } => "Failed to parse "@ + token + " as id: "@
            + reason_of(error),
    }
}

impl IdsError {
    /// The error in words.
    pub fn message(&self) -> (r: String)
        ensures
            r@ == message_of(self@),
    {
        match self {
            IdsError::NoIds => "No ids found".to_owned(),
            IdsError::Invalid { token, error } => {
                let a = append("Failed to parse ", token.as_str());
                let b = append(a.as_str(), " as id: ");
                append(b.as_str(), error.reason())
            },
        }
    }
}

/// The position of the first `-` in `s`, or the length of `s` where it has none.
pub open spec fn first_dash(s: Seq<char>) -> int
    decreases s.len(),
{
    if s.len() == 0 || s[0] == '-' {
        0
    } else {
        1 + first_dash(s.drop_first())
    }
}

/// The ids that one piece names, as the first and the last of a range: a
/// single id, or all from the number before the first `-` to the number
/// after it. A piece with a part that is no number names that part and what
/// is wrong with it.
pub open spec fn piece_range(piece: Seq<char>) -> Result<(i32, i32), IdsErrorView> {
    let dash = first_dash(piece);
    if dash < piece.len() {
        match parsed_int(piece.take(dash)) {
            Err(error) => Err(IdsErrorView::Invalid { token: piece.take(dash), error }),
            Ok(lo) => match parsed_int(piece.skip(dash + 1)) {
                Err(error) => Err(IdsErrorView::Invalid { token: piece.skip(dash + 1), error }),
                Ok(hi) => Ok((lo, hi)),
            },
        }
    } else {
        match parsed_int(piece) {
            Err(error) => Err(IdsErrorView::Invalid { token: piece, error }),
            Ok(id) => Ok((id, id)),
        }
    }
}

/// Whether `piece` names the id `x`.
pub open spec fn piece_names(piece: Seq<char>, x: i32) -> bool {
    match piece_range(piece) {
        Ok(r) => r.0 <= x <= r.1,
        Err(_) => false,
    }
}

/// Whether one of `pieces` names the id `x`.
pub open spec fn names_id(pieces: Seq<Seq<char>>, x: i32) -> bool {
    exists|k: int| 0 <= k < pieces.len() && piece_names(#[trigger] pieces[k], x)
}

/// What is wrong with `piece`, in words.
pub open spec fn piece_message(piece: Seq<char>) -> Seq<char> {
    match piece_range(piece) {
        Ok(_) => Seq::empty(),
        Err(e) => message_of(e),
    }
}

/// Whether every piece before `k` names ids, and the piece at `k` does not.
pub open spec fn first_bad_piece(pieces: Seq<Seq<char>>, k: int) -> bool {
    &&& 0 <= k < pieces.len()
    &&& piece_range(pieces[k]) is Err
    &&& forall|j: int| 0 <= j < k ==> (#[trigger] piece_range(pieces[j])) is Ok
}

/// Whether the ids are in ascending order, none twice.
pub open spec fn ascending(ids: Seq<i32>) -> bool {
    forall|i: int, j: int| 0 <= i < j < ids.len() ==> ids[i] < ids[j]
}

/// Reads one piece of a list of ids.
pub fn parse_piece(piece: &str) -> (r: Result<(i32, i32), IdsError>)
    ensures
        match r {
            Ok(range) => piece_range(piece@) == Ok::<_, IdsErrorView>(range),
            Err(e) => piece_range(piece@) == Err::<(i32, i32), _>(e@),
        },
{
    let v = chars_of(piece);
    let mut dash: usize = 0;
    assert(v@.skip(0) == v@);
    while dash < v.len() && v[dash] != '-'
        invariant
            dash <= v.len(),
            first_dash(v@) == dash + first_dash(v@.skip(dash as int)),
        decreases v.len() - dash,
    {
        assert(v@.skip(dash as int).drop_first() == v@.skip(dash + 1));
        dash += 1;
    }
    assert(first_dash(v@) == dash) by {
        if dash < v.len() {
            assert(v@.skip(dash as int)[0] == '-');
        }
    }
    if dash < v.len() {
        let start = string_of_range(&v, 0, dash);
        let end = string_of_range(&v, dash + 1, v.len());
        assert(v@.subrange(0, dash as int) == v@.take(dash as int));
        assert(v@.subrange(dash + 1, v.len() as int) == v@.skip(dash + 1));
        match parse_int(start.as_str()) {
            Err(error) => Err(IdsError::Invalid { token: start, error }),
            Ok(lo) => match parse_int(end.as_str()) {
                Err(error) => Err(IdsError::Invalid { token: end, error }),
                Ok(hi) => Ok((lo, hi)),
            },
        }
    } else {
        match parse_int(piece) {
            Err(error) => Err(IdsError::Invalid { token: piece.to_owned(), error }),
            Ok(id) => Ok((id, id)),
        }
    }
}

/// The ids of `ids` together with all from `lo` to `hi`, in ascending order.
pub fn merge_range(ids: &Vec<i32>, lo: i32, hi: i32) -> (r: Vec<i32>)
    requires
        ascending(ids@),
    ensures
        ascending(r@),
        forall|x: i32| r@.contains(x) <==> (ids@.contains(x) || lo <= x <= hi),
{
    let mut out: Vec<i32> = Vec::new();
    if lo > hi {
        let mut k: usize = 0;
        while k < ids.len()
            invariant
                k <= ids.len(),
                out@ == ids@.take(k as int),
            decreases ids.len() - k,
        {
            out.push(ids[k]);
            k += 1;
            assert(ids@.take(k as int) == ids@.take(k - 1).push(ids@[k - 1]));
        }
        assert(ids@.take(ids.len() as int) == ids@);
        return out;
    }
    let mut i: usize = 0;
    while i < ids.len() && ids[i] < lo
        invariant
            i <= ids.len(),
            out@.len() == i,
            forall|k: int| 0 <= k < i ==> #[trigger] out@[k] == ids@[k],
            forall|k: int| 0 <= k < i ==> #[trigger] ids@[k] < lo,
        decreases ids.len() - i,
    {
        out.push(ids[i]);
        i += 1;
    }
    let low: usize = i;
    let mut x: i64 = lo as i64;
    while x <= hi as i64
        invariant
            lo <= x <= hi + 1,
            out@.len() == low + (x - lo),
            forall|k: int| 0 <= k < low ==> #[trigger] out@[k] == ids@[k],
            forall|k: int| low <= k < out@.len() ==> #[trigger] out@[k] == lo + (k - low),
        decreases hi - x + 1,
    {
        out.push(x as i32);
        x += 1;
    }
    let mid: usize = out.len();
    while i < ids.len() && ids[i] <= hi
        invariant
            low <= i <= ids.len(),
            forall|k: int| low <= k < i ==> #[trigger] ids@[k] <= hi,
        decreases ids.len() - i,
    {
        i += 1;
    }
    let high: usize = i;
    while i < ids.len()
        invariant
            low <= high <= i <= ids.len(),
            lo <= hi,
            mid == low + (hi - lo + 1),
            out@.len() == mid + (i - high),
            forall|k: int| 0 <= k < low ==> #[trigger] out@[k] == ids@[k],
            forall|k: int| low <= k < mid ==> #[trigger] out@[k] == lo + (k - low),
            forall|k: int| mid <= k < out@.len() ==> #[trigger] out@[k] == ids@[high + (k - mid)],
        decreases ids.len() - i,
    {
        out.push(ids[i]);
        i += 1;
    }
    proof {
        assert forall|k: int| low <= k < ids@.len() implies #[trigger] ids@[k] >= lo by {
            if k > low {
                assert(ids@[low as int] < ids@[k]);
            }
        }
        assert forall|k: int| high <= k < ids@.len() implies #[trigger] ids@[k] > hi by {
            if k > high {
                assert(ids@[high as int] < ids@[k]);
            }
        }
        assert forall|a: int, b: int| 0 <= a < b < out@.len() implies out@[a] < out@[b] by {
            if a < low {
                assert(out@[a] == ids@[a]);
                assert(ids@[a] < lo);
                if b < low {
                    assert(out@[b] == ids@[b]);
                } else if b < mid {
                    assert(out@[b] == lo + (b - low));
                } else {
                    assert(out@[b] == ids@[high + (b - mid)]);
                }
            } else if a < mid {
                assert(out@[a] == lo + (a - low));
                if b < mid {
                    assert(out@[b] == lo + (b - low));
                } else {
                    assert(out@[b] == ids@[high + (b - mid)]);
                }
            } else {
                assert(out@[a] == ids@[high + (a - mid)]);
                assert(out@[b] == ids@[high + (b - mid)]);
            }
        }
        assert forall|x: i32| out@.contains(x) <==> (ids@.contains(x) || lo <= x <= hi) by {
            if out@.contains(x) {
                let k = choose|k: int| 0 <= k < out@.len() && out@[k] == x;
                if k < low {
                    assert(ids@[k] == x);
                } else if k >= mid {
                    assert(ids@[high + (k - mid)] == x);
                } else {
                    assert(out@[k] == lo + (k - low));
                }
            }
            if ids@.contains(x) && !(lo <= x <= hi) {
                let k = choose|k: int| 0 <= k < ids@.len() && ids@[k] == x;
                if k < low {
                    assert(out@[k] == x);
                } else {
                    assert(ids@[k] >= lo);
                    if k < high {
                        assert(ids@[k] <= hi);
                    }
                    assert(out@[mid + (k - high)] == x);
                }
            }
            if lo <= x <= hi {
                assert(out@[low + (x - lo)] == x);
            }
        }
    }
    out
}

impl Ids {
    /// Reads a list of ids: pieces parted by `,`, each a number or two
    /// numbers with `-` between them, which stand for all from the first to
    /// the second. The ids come out in ascending order, none twice.
    pub fn parse(s: &str) -> (r: Result<Ids, IdsError>)
        ensures
            match r {
                Ok(ids) => {
                    &&& s@.len() > 0
                    &&& forall|k: int|
                        0 <= k < split_by(s@, seq![',']).len() ==> (#[trigger] piece_range(
                            split_by(s@, seq![','])[k],
                        )) is Ok
                    &&& ascending(ids.0@)
                    &&& forall|x: i32| ids.0@.contains(x) <==> names_id(split_by(s@, seq![',']), x)
                },
                Err(e) => if s@.len() == 0 {
                    e@ == IdsErrorView::NoIds
                } else {
                    exists|k: int|
                        first_bad_piece(split_by(s@, seq![',']), k) && piece_range(
                            split_by(s@, seq![','])[k],
                        ) == Err::<(i32, i32), _>(e@)
                },
            },
    {
        if s.unicode_len() == 0 {
            return Err(IdsError::NoIds);
        }
        proof {
            reveal_strlit(",");
            assert(","@ == seq![',']);
        }
        let pieces = split(s, ",");
        let ghost all = texts_of(pieces@);
        let mut ids: Vec<i32> = Vec::new();
        let mut k: usize = 0;
        while k < pieces.len()
            invariant
                k <= pieces.len(),
                s@.len() > 0,
                all == texts_of(pieces@),
                all == split_by(s@, seq![',']),
                ascending(ids@),
                forall|j: int| 0 <= j < k ==> (#[trigger] piece_range(all[j])) is Ok,
                forall|x: i32| ids@.contains(x) <==> names_id(all.take(k as int), x),
            decreases pieces.len() - k,
        {
            assert(all[k as int] == pieces@[k as int]@);
            match parse_piece(pieces[k].as_str()) {
                Err(e) => {
                    assert(first_bad_piece(all, k as int));
                    return Err(e);
                },
                Ok((lo, hi)) => {
                    let ghost before = ids@;
                    ids = merge_range(&ids, lo, hi);
                    proof {
                        let old_pieces = all.take(k as int);
                        let new_pieces = all.take(k + 1);
                        assert forall|x: i32| ids@.contains(x) <==> names_id(new_pieces, x) by {
                            if names_id(new_pieces, x) {
                                let j = choose|j: int|
                                    0 <= j < new_pieces.len() && piece_names(
                                        #[trigger] new_pieces[j],
                                        x,
                                    );
                                if j < k {
                                    assert(old_pieces[j] == new_pieces[j]);
                                    assert(names_id(old_pieces, x));
                                }
                            }
                            if before.contains(x) {
                                let j = choose|j: int|
                                    0 <= j < old_pieces.len() && piece_names(
                                        #[trigger] old_pieces[j],
                                        x,
                                    );
                                assert(new_pieces[j] == old_pieces[j]);
                            }
                            if lo <= x <= hi {
                                assert(new_pieces[k as int] == all[k as int]);
                                assert(piece_names(new_pieces[k as int], x));
                            }
                        }
                    }
                },
            }
            k += 1;
        }
        assert(all.take(pieces.len() as int) == all);
        Ok(Ids(ids))
    }

    /// Reads a list of ids; an error comes in words.
    pub fn from_str(s: &str) -> (r: Result<Ids, String>)
        ensures
            match r {
                Ok(ids) => {
                    &&& s@.len() > 0
                    &&& forall|k: int|
                        0 <= k < split_by(s@, seq![',']).len() ==> (#[trigger] piece_range(
                            split_by(s@, seq![','])[k],
                        )) is Ok
                    &&& ascending(ids.0@)
                    &&& forall|x: i32| ids.0@.contains(x) <==> names_id(split_by(s@, seq![',']), x)
                },
                Err(m) => if s@.len() == 0 {
                    m@ == message_of(IdsErrorView::NoIds)
                } else {
                    exists|k: int|
                        first_bad_piece(split_by(s@, seq![',']), k) && m@ == piece_message(
                            split_by(s@, seq![','])[k],
                        )
                },
            },
    {
        match Ids::parse(s) {
            Ok(ids) => Ok(ids),
            Err(e) => {
                let m = e.message();
                proof {
                    if s@.len() > 0 {
                        let k = choose|k: int|
                            first_bad_piece(split_by(s@, seq![',']), k) && piece_range(
                                split_by(s@, seq![','])[k],
                            ) == Err::<(i32, i32), _>(e@);
                        assert(first_bad_piece(split_by(s@, seq![',']), k));
                    }
                }
                Err(m)
            },
        }
    }

    /// How a list of ids is written: the numbers with `,` between them.
    pub open spec fn written(ids: Seq<i32>) -> Seq<char> {
        joined_by(ids.map_values(|n: i32| int_text_of(n as int)), seq![','])
    }

    /// The ids with `,` between them.
    pub fn to_text(&self) -> (r: String)
        ensures
            r@ == Ids::written(self.0@),
    {
        let mut texts: Vec<String> = Vec::new();
        let mut i: usize = 0;
        while i < self.0.len()
            invariant
                i <= self.0@.len(),
                texts@.len() == i,
                forall|k: int| 0 <= k < i ==> (#[trigger] texts@[k])@ == int_text_of(self.0@[k] as int),
            decreases self.0@.len() - i,
        {
            texts.push(int_text(self.0[i]));
            i += 1;
        }
        proof {
            reveal_strlit(",");
            assert(","@ == seq![',']);
            assert(texts_of(texts@) =~= self.0@.map_values(|n: i32| int_text_of(n as int)));
        }
        join(&texts, ",")
    }
}

} // verus!
