//! Case inversion of a fixed sample sentence.
use vstd::prelude::*;
use vstd::string::StrSliceExecFns;

verus! {

/// The sample sentence. It is plain ASCII.
pub open spec fn sample_text() -> Seq<char> {
    "The quick brown fox jumps over the lazy dog"@
}

/// Upper-case ASCII letters become lower-case and the reverse; every other
/// character is passed through.
pub open spec fn invert_case(c: char) -> char {
    if 'a' <= c && c <= 'z' {
        ((c as u8) - 32) as char
    } else if 'A' <= c && c <= 'Z' {
        ((c as u8) + 32) as char
    } else {
        c
    }
}

/// Longest text that `process_text` returns, in characters.
pub const TEXT_LIMIT: usize = 100;

/// The case-inverted sentence written `iterations` times in a row, cut off
/// after `TEXT_LIMIT` characters.
pub open spec fn processed_text(iterations: nat) -> Seq<char> {
    let whole = sample_text().len() * iterations;
    let kept = if whole < TEXT_LIMIT {
        whole
    } else {
        TEXT_LIMIT as nat
    };
    Seq::new(kept, |i: int| invert_case(sample_text()[i % (sample_text().len() as int)]))
}

/// `String::push` appends one character and changes nothing else.
pub assume_specification[ String::push ](s: &mut String, ch: char)
    ensures
        final(s)@ == old(s)@.push(ch),
;

/// Inverts the case of one character.
pub fn swap_case(c: char) -> (swapped: char)
    ensures
        swapped == invert_case(c),
{
    if 'a' <= c && c <= 'z' {
        ((c as u8) - 32) as char
    } else if 'A' <= c && c <= 'Z' {
        ((c as u8) + 32) as char
    } else {
        c
    }
}

/// Writes the sample sentence `iterations` times with the case of every
/// letter inverted and returns the first `TEXT_LIMIT` characters of that.
pub fn process_text(iterations: u32) -> (text: String)
    ensures
        text@ == processed_text(iterations as nat),
{
    let base = "The quick brown fox jumps over the lazy dog";
    proof {
        reveal_strlit("The quick brown fox jumps over the lazy dog");
    }
    let period: usize = 43;
    let whole: u64 = period as u64 * iterations as u64;
    let kept: usize = if whole < TEXT_LIMIT as u64 {
        whole as usize
    } else {
        TEXT_LIMIT
    };
    let mut text = String::new();
    let mut i: usize = 0;
    while i < kept
        invariant
            base@ == sample_text(),
            base@.len() == 43,
            period == 43,
            i <= kept,
            text@.len() == i,
            forall|j: int|
                0 <= j < i ==> text@[j] == invert_case(sample_text()[j % (period as int)]),
        decreases kept - i,
    {
        let c = base.get_char(i % period);
        text.push(swap_case(c));
        i += 1;
    }
    text
}

} // verus!
