//! The allow-list of a deployment as it is written down: the identifiers
//! of its communities in decimal, separated by commas.

use crate::text::{trim, trimmed};
use vstd::prelude::*;

verus! {

/// The character between two identifiers of an allow-list.
pub const SEPARATOR: char = ',';

/// The pieces that the separators cut `text` into: one more than there
/// are separators, in their order.
pub open spec fn pieces(text: Seq<char>) -> Seq<Seq<char>>
    decreases text.len(),
{
    if text.len() == 0 {
        seq![Seq::<char>::empty()]
    } else {
        let before = pieces(text.drop_last());
        if text.last() == SEPARATOR {
            before.push(Seq::<char>::empty())
        } else {
            before.drop_last().push(before.last().push(text.last()))
        }
    }
}

/// Whether `c` is one of the digits `0` to `9`.
pub open spec fn is_digit(c: char) -> bool {
    '0' <= c <= '9'
}

/// The number that the digits `digits` write in decimal.
pub open spec fn decimal_value(digits: Seq<char>) -> nat
    decreases digits.len(),
{
    if digits.len() == 0 {
        0
    } else {
        decimal_value(digits.drop_last()) * 10 + (digits.last() as nat - '0' as nat) as nat
    }
}

/// The digits of `text`: all of it but a plus sign at its beginning.
pub open spec fn digits_of(text: Seq<char>) -> Seq<char> {
    if text.len() > 0 && text.first() == '+' {
        text.drop_first()
    } else {
        text
    }
}

/// The identifier that `text` writes: a number between 1 and the largest
/// `u64`, as one or more decimal digits, with or without a plus sign
/// before them. `None` for every other text.
pub open spec fn identifier(text: Seq<char>) -> Option<u64> {
    let digits = digits_of(text);
    if digits.len() > 0 && (forall|i: int| 0 <= i < digits.len() ==> is_digit(#[trigger] digits[i]))
        && 1 <= decimal_value(digits) <= u64::MAX {
        Some(decimal_value(digits) as u64)
    } else {
        None
    }
}

/// The identifiers that `pieces` write, in order: a piece of nothing but
/// whitespace is passed over, every other one is trimmed and has to write
/// an identifier. Where one does not, the result is that piece, trimmed:
/// the first such.
pub open spec fn identifiers(pieces: Seq<Seq<char>>) -> Result<Seq<u64>, Seq<char>>
    decreases pieces.len(),
{
    if pieces.len() == 0 {
        Ok(Seq::<u64>::empty())
    } else {
        match identifiers(pieces.drop_last()) {
            Err(piece) => Err(piece),
            Ok(ids) => {
                let piece = trimmed(pieces.last());
                if piece.len() == 0 {
                    Ok(ids)
                } else {
                    match identifier(piece) {
                        Some(id) => Ok(ids.push(id)),
                        None => Err(piece),
                    }
                }
            },
        }
    }
}

/// More digits write a number at least as large.
proof fn lemma_decimal_value_grows(digits: Seq<char>, n: int)
    requires
        0 <= n <= digits.len(),
    ensures
        decimal_value(digits.take(n)) <= decimal_value(digits),
    decreases digits.len() - n,
{
    if n < digits.len() {
        lemma_decimal_value_grows(digits, n + 1);
        assert(digits.take(n + 1).drop_last() =~= digits.take(n));
    } else {
        assert(digits.take(n) =~= digits);
    }
}

/// Reads the identifier that `text` writes, if it writes one.
pub fn parse_identifier(text: &str) -> (id: Option<u64>)
    ensures
        id == identifier(text@),
{
    let mut value: u64 = 0;
    let mut count: usize = 0;
    let mut index: usize = 0;
    // The number of characters fits a `usize`, and with it every count below.
    let length = text.unicode_len();
    let ghost digits = digits_of(text@);
    let ghost skipped: int = text@.len() - digits.len();
    for c in it: text.chars()
        invariant
            it.seq() == text@,
            length == text@.len(),
            digits == digits_of(text@),
            skipped == text@.len() - digits.len(),
            index == it.index(),
            skipped <= index ==> count == index - skipped,
            index < skipped ==> count == 0,
            count <= digits.len(),
            forall|i: int| 0 <= i < count ==> is_digit(#[trigger] digits[i]),
            value == decimal_value(digits.take(count as int)),
    {
        if index == 0 && c == '+' {
            assert(skipped == 1);
        } else {
            assert(digits[count as int] == c);
            if !(c >= '0' && c <= '9') {
                return None;
            }
            let digit: u64 = (c as u32 - '0' as u32) as u64;
            proof {
                assert(digits.take(count + 1).drop_last() =~= digits.take(count as int));
                lemma_decimal_value_grows(digits, count + 1);
            }
            let next = match value.checked_mul(10) {
                Some(tenfold) => tenfold.checked_add(digit),
                None => None,
            };
            match next {
                Some(sum) => {
                    value = sum;
                },
                None => {
                    return None;
                },
            }
            count += 1;
        }
        index += 1;
    }
    proof {
        assert(digits.take(count as int) =~= digits);
    }
    if count == 0 || value == 0 {
        None
    } else {
        Some(value)
    }
}

/// Takes the piece `piece` of an allow-list into account: passes it over
/// if it is nothing but whitespace, else appends the identifier it writes
/// to `ids`; where it writes none, returns it trimmed.
fn take_piece(ids: &mut Vec<u64>, piece: &str) -> (outcome: Result<(), String>)
    ensures
        match outcome {
            Ok(()) => trimmed(piece@).len() == 0 && final(ids)@ == old(ids)@ || identifier(
                trimmed(piece@),
            ) is Some && trimmed(piece@).len() > 0 && final(ids)@ == old(ids)@.push(
                identifier(trimmed(piece@))->0,
            ),
            Err(bad) => trimmed(piece@).len() > 0 && identifier(trimmed(piece@)) is None && bad@
                == trimmed(piece@) && final(ids)@ == old(ids)@,
        },
{
    let inner = trim(piece);
    if inner.as_str().is_empty() {
        return Ok(());
    }
    match parse_identifier(inner.as_str()) {
        Some(id) => {
            ids.push(id);
            Ok(())
        },
        None => Err(inner),
    }
}

/// Reads an allow-list: the identifiers of `text`, separated by commas,
/// each with or without whitespace around it, in their order. Empty
/// pieces are passed over. Where a piece writes no identifier (a number
/// from 1 on that fits 64 bits), the first such piece is returned as the
/// error, trimmed.
pub fn parse_allow_list(text: &str) -> (outcome: Result<Vec<u64>, String>)
    ensures
        match outcome {
            Ok(ids) => identifiers(pieces(text@)) == Ok::<Seq<u64>, Seq<char>>(ids@),
            Err(piece) => identifiers(pieces(text@)) == Err::<Seq<u64>, Seq<char>>(piece@),
        },
{
    let mut ids: Vec<u64> = Vec::new();
    let mut piece = String::new();
    let mut index: usize = 0;
    // The number of characters fits a `usize`, and with it every index below.
    let length = text.unicode_len();
    for c in it: text.chars()
        invariant
            it.seq() == text@,
            length == text@.len(),
            index == it.index(),
            piece@ == pieces(text@.take(index as int)).last(),
            pieces(text@.take(index as int)).len() > 0,
            identifiers(pieces(text@.take(index as int)).drop_last()) == Ok::<
                Seq<u64>,
                Seq<char>,
            >(ids@),
    {
        let ghost seen = text@.take(index as int);
        let ghost next = text@.take(index + 1);
        proof {
            assert(next.drop_last() =~= seen);
            assert(next.last() == c);
        }
        if c == SEPARATOR {
            proof {
                assert(pieces(next).drop_last() =~= pieces(seen));
                assert(pieces(seen).last() == piece@);
            }
            match take_piece(&mut ids, piece.as_str()) {
                Ok(()) => {},
                Err(bad) => {
                    proof {
                        lemma_pieces_extend(text@, index + 1);
                        lemma_identifiers_fail_early(pieces(text@), pieces(next).drop_last(), bad@);
                    }
                    return Err(bad);
                },
            }
            piece = String::new();
        } else {
            piece.push(c);
            proof {
                assert(pieces(next).drop_last() =~= pieces(seen).drop_last());
            }
        }
        index += 1;
    }
    proof {
        assert(text@.take(index as int) =~= text@);
    }
    match take_piece(&mut ids, piece.as_str()) {
        Ok(()) => Ok(ids),
        Err(bad) => Err(bad),
    }
}

/// The pieces of a beginning of `text`, but for the last, are pieces of
/// `text`.
proof fn lemma_pieces_extend(text: Seq<char>, n: int)
    requires
        0 <= n <= text.len(),
    ensures
        pieces(text.take(n)).len() >= 1,
        pieces(text.take(n)).len() <= pieces(text).len(),
        pieces(text.take(n)).drop_last() == pieces(text).take(pieces(text.take(n)).len() - 1),
    decreases text.len() - n,
{
    lemma_pieces_nonempty(text.take(n));
    if n < text.len() {
        lemma_pieces_extend(text, n + 1);
        let shorter = pieces(text.take(n));
        let longer = pieces(text.take(n + 1));
        assert(text.take(n + 1).drop_last() =~= text.take(n));
        lemma_pieces_nonempty(text.take(n + 1));
        assert(shorter.drop_last() =~= longer.take(shorter.len() - 1));
        assert(shorter.drop_last() =~= pieces(text).take(shorter.len() - 1)) by {
            assert(longer.drop_last() == pieces(text).take(longer.len() - 1));
            assert(longer.take(shorter.len() - 1) =~= longer.drop_last().take(shorter.len() - 1));
            assert(pieces(text).take(longer.len() - 1).take(shorter.len() - 1) =~= pieces(
                text,
            ).take(shorter.len() - 1));
        }
    } else {
        assert(text.take(n) =~= text);
        assert(pieces(text).drop_last() =~= pieces(text).take(pieces(text).len() - 1));
    }
}

/// Every text has at least one piece.
proof fn lemma_pieces_nonempty(text: Seq<char>)
    ensures
        pieces(text).len() >= 1,
    decreases text.len(),
{
    if text.len() > 0 {
        lemma_pieces_nonempty(text.drop_last());
    }
}

/// Where the first pieces of a list fail, the whole list fails, and on
/// the same piece.
proof fn lemma_identifiers_fail_early(all: Seq<Seq<char>>, first: Seq<Seq<char>>, bad: Seq<char>)
    requires
        first.len() <= all.len(),
        first == all.take(first.len() as int),
        identifiers(first) == Err::<Seq<u64>, Seq<char>>(bad),
    ensures
        identifiers(all) == Err::<Seq<u64>, Seq<char>>(bad),
    decreases all.len(),
{
    if first.len() < all.len() {
        assert(all.drop_last().take(first.len() as int) =~= first);
        lemma_identifiers_fail_early(all.drop_last(), first, bad);
    } else {
        assert(all.take(first.len() as int) =~= all);
    }
}

} // verus!
