//! Sensitivities: one decimal number between 0 and 1 per hotword, written as
//! a comma-separated list.
//!
//! A sensitivity is written as `0` or `1`, optionally followed by a point
//! and one or more decimal digits; after `1` only zeros may follow. Entries
//! are kept as written, so that reading a list back returns the very text
//! that was set. The scorers use a sensitivity in millionths, cut off after
//! the sixth decimal.

use vstd::prelude::*;
use vstd::string::StringExecFns;
use crate::error::EngineError;
use crate::text::{chars_of, join, join_texts, split, split_text, texts};

verus! {

/// The score that stands for certainty; scores and thresholds are millionths.
pub const SCORE_SCALE: i32 = 1_000_000;

/// Whether a character is a decimal digit.
pub open spec fn is_digit(c: char) -> bool {
    48 <= c as u32 <= 57
}

/// The value of a decimal digit.
pub open spec fn digit_value(c: char) -> int {
    c as u32 - 48
}

/// Whether every character from position `from` on is a decimal digit.
pub open spec fn digits_from(t: Seq<char>, from: int) -> bool {
    forall|k: int| from <= k < t.len() ==> is_digit(#[trigger] t[k])
}

/// Whether every character from position `from` on is the digit zero.
pub open spec fn zeros_from(t: Seq<char>, from: int) -> bool {
    forall|k: int| from <= k < t.len() ==> #[trigger] t[k] == '0'
}

/// Whether a text is a well-formed sensitivity.
pub open spec fn is_sensitivity(t: Seq<char>) -> bool {
    &&& t.len() >= 1
    &&& (t[0] == '0' || t[0] == '1')
    &&& (t.len() == 1 || (t.len() >= 3 && t[1] == '.' && digits_from(t, 2) && (t[0] == '1'
        ==> zeros_from(t, 2))))
}

/// The value of decimal `k` of a sensitivity, zero where it is not written.
pub open spec fn decimal(t: Seq<char>, k: int) -> int {
    if 2 + k < t.len() {
        digit_value(t[2 + k])
    } else {
        0
    }
}

/// A well-formed sensitivity in millionths, cut off after the sixth decimal.
pub open spec fn sensitivity_ppm(t: Seq<char>) -> int {
    if t[0] == '1' {
        1_000_000
    } else {
        decimal(t, 0) * 100_000 + decimal(t, 1) * 10_000 + decimal(t, 2) * 1_000 + decimal(t, 3)
            * 100 + decimal(t, 4) * 10 + decimal(t, 5)
    }
}

/// The score that a hotword must exceed to fire under a sensitivity: the
/// higher the sensitivity, the lower the threshold.
pub open spec fn spec_threshold(t: Seq<char>) -> int {
    SCORE_SCALE - sensitivity_ppm(t)
}

/// Whether every entry is a well-formed sensitivity.
pub open spec fn all_sensitivities(entries: Seq<Seq<char>>) -> bool {
    forall|i: int| 0 <= i < entries.len() ==> is_sensitivity(#[trigger] entries[i])
}

/// What a sensitivity list means for an engine with `expected` hotwords: its
/// entries, if there are as many as hotwords and every one is well formed.
/// The number of entries is checked first.
pub open spec fn spec_parse_list(text: Seq<char>, expected: nat) -> Result<
    Seq<Seq<char>>,
    EngineError,
> {
    let entries = split(text, ',');
    if entries.len() != expected {
        Err(EngineError::SensitivityCountMismatch)
    } else if !all_sensitivities(entries) {
        Err(EngineError::InvalidSensitivity)
    } else {
        Ok(entries)
    }
}

/// A well-formed sensitivity lies between 0 and 1.
pub proof fn lemma_ppm_bounds(t: Seq<char>)
    requires
        is_sensitivity(t),
    ensures
        0 <= sensitivity_ppm(t) <= 1_000_000,
        0 <= spec_threshold(t) <= 1_000_000,
{
    if t[0] != '1' {
        assert forall|k: int| 0 <= k < 6 implies 0 <= #[trigger] decimal(t, k) <= 9 by {
            if 2 + k < t.len() {
                assert(is_digit(t[2 + k]));
            }
        }
        assert(0 <= decimal(t, 0) <= 9);
        assert(0 <= decimal(t, 1) <= 9);
        assert(0 <= decimal(t, 2) <= 9);
        assert(0 <= decimal(t, 3) <= 9);
        assert(0 <= decimal(t, 4) <= 9);
        assert(0 <= decimal(t, 5) <= 9);
    }
}

fn decimal_at(chars: &Vec<char>, k: usize) -> (d: u32)
    requires
        k < 6,
        digits_from(chars@, 2),
    ensures
        d == decimal(chars@, k as int),
        d <= 9,
{
    if 2 + k < chars.len() {
        assert(is_digit(chars@[2 + k]));
        chars[2 + k] as u32 - 48
    } else {
        0
    }
}

/// Reads one sensitivity: its value in millionths, or `None` where the text
/// is not a well-formed sensitivity.
pub fn parse_sensitivity(text: &str) -> (r: Option<u32>)
    ensures
        match r {
            Some(ppm) => is_sensitivity(text@) && ppm == sensitivity_ppm(text@),
            None => !is_sensitivity(text@),
        },
{
    let chars: Vec<char> = chars_of(text);
    let n: usize = chars.len();
    if n == 0 {
        return None;
    }
    let whole: char = chars[0];
    if whole != '0' && whole != '1' {
        return None;
    }
    if n == 1 {
        return Some(if whole == '1' { 1_000_000 } else { 0 });
    }
    if n < 3 || chars[1] != '.' {
        return None;
    }
    let mut k: usize = 2;
    while k < n
        invariant
            2 <= k <= n,
            3 <= n,
            n == chars.len(),
            chars@ == text@,
            whole == chars@[0],
            whole == '0' || whole == '1',
            chars@[1] == '.',
            forall|j: int| 2 <= j < k ==> is_digit(#[trigger] chars@[j]),
            whole == '1' ==> forall|j: int| 2 <= j < k ==> #[trigger] chars@[j] == '0',
        decreases n - k,
    {
        let c: char = chars[k];
        let code: u32 = c as u32;
        if code < 48 || code > 57 {
            assert(!is_digit(chars@[k as int]));
            return None;
        }
        if whole == '1' && c != '0' {
            return None;
        }
        k += 1;
    }
    if whole == '1' {
        Some(1_000_000)
    } else {
        let d0: u32 = decimal_at(&chars, 0);
        let d1: u32 = decimal_at(&chars, 1);
        let d2: u32 = decimal_at(&chars, 2);
        let d3: u32 = decimal_at(&chars, 3);
        let d4: u32 = decimal_at(&chars, 4);
        let d5: u32 = decimal_at(&chars, 5);
        Some(d0 * 100_000 + d1 * 10_000 + d2 * 1_000 + d3 * 100 + d4 * 10 + d5)
    }
}

/// The sensitivities of an engine, one per hotword and in hotword order.
#[derive(Debug)]
pub struct SensitivityVector {
    entries: Vec<String>,
    ppm: Vec<u32>,
}

impl View for SensitivityVector {
    type V = Seq<Seq<char>>;

    closed spec fn view(&self) -> Seq<Seq<char>> {
        texts(self.entries@)
    }
}

impl SensitivityVector {
    /// Whether every entry is well formed and its value is at hand.
    pub closed spec fn wf(&self) -> bool {
        &&& self.ppm@.len() == self.entries@.len()
        &&& forall|i: int|
            0 <= i < self.entries@.len() ==> is_sensitivity(#[trigger] self.entries@[i]@)
                && self.ppm@[i] == sensitivity_ppm(self.entries@[i]@)
    }

    /// A well-formed vector holds well-formed sensitivities only.
    pub proof fn lemma_wf(&self)
        requires
            self.wf(),
        ensures
            all_sensitivities(self@),
    {
        assert forall|i: int| 0 <= i < self@.len() implies is_sensitivity(#[trigger] self@[i]) by {
            assert(self@[i] == self.entries@[i]@);
        }
    }

    /// Creates a vector without entries.
    pub fn new() -> (v: SensitivityVector)
        ensures
            v.wf(),
            v@ == Seq::<Seq<char>>::empty(),
    {
        let v = SensitivityVector { entries: Vec::new(), ppm: Vec::new() };
        assert(v@ =~= Seq::<Seq<char>>::empty());
        v
    }

    /// Returns the number of entries.
    pub fn len(&self) -> (n: usize)
        ensures
            n == self@.len(),
    {
        self.entries.len()
    }

    /// Adds one entry at the end if it is a well-formed sensitivity, and
    /// says whether it was.
    pub fn push(&mut self, text: &str) -> (ok: bool)
        requires
            old(self).wf(),
        ensures
            final(self).wf(),
            ok == is_sensitivity(text@),
            ok ==> final(self)@ == old(self)@.push(text@),
            !ok ==> final(self)@ == old(self)@,
    {
        match parse_sensitivity(text) {
            None => false,
            Some(value) => {
                let entry: String = String::from_str(text);
                self.entries.push(entry);
                self.ppm.push(value);
                assert(self@ =~= old(self)@.push(text@));
                true
            },
        }
    }

    /// Reads a comma-separated list for an engine with `expected` hotwords.
    /// A list with another number of entries is a count mismatch; otherwise
    /// an entry that is no well-formed sensitivity makes the list invalid.
    pub fn parse(text: &str, expected: usize) -> (r: Result<SensitivityVector, EngineError>)
        ensures
            match r {
                Ok(v) => v.wf() && spec_parse_list(text@, expected as nat) == Ok::<
                    Seq<Seq<char>>,
                    EngineError,
                >(v@),
                Err(e) => spec_parse_list(text@, expected as nat) == Err::<
                    Seq<Seq<char>>,
                    EngineError,
                >(e),
            },
    {
        let pieces: Vec<String> = split_text(text, ',');
        if pieces.len() != expected {
            return Err(EngineError::SensitivityCountMismatch);
        }
        let ghost entries = split(text@, ',');
        let mut v = SensitivityVector::new();
        let mut i: usize = 0;
        while i < pieces.len()
            invariant
                i <= pieces.len(),
                pieces.len() == expected,
                entries == split(text@, ','),
                texts(pieces@) == entries,
                v.wf(),
                v@ == entries.take(i as int),
                forall|k: int| 0 <= k < i ==> is_sensitivity(#[trigger] entries[k]),
            decreases pieces.len() - i,
        {
            assert(entries[i as int] == pieces@[i as int]@);
            let ok: bool = v.push(pieces[i].as_str());
            if !ok {
                assert(!is_sensitivity(entries[i as int]));
                return Err(EngineError::InvalidSensitivity);
            }
            assert(entries.take(i as int).push(entries[i as int]) =~= entries.take(i + 1));
            i += 1;
        }
        assert(entries.take(i as int) =~= entries);
        Ok(v)
    }

    /// Writes the entries as a comma-separated list, each as it was set.
    pub fn format(&self) -> (text: String)
        ensures
            text@ == join(self@, ','),
    {
        proof {
            reveal_strlit(",");
        }
        let text = join_texts(&self.entries, ",");
        text
    }

    /// Returns a copy of the text of an entry.
    pub fn entry(&self, i: usize) -> (text: String)
        requires
            i < self@.len(),
        ensures
            text@ == self@[i as int],
    {
        self.entries[i].clone()
    }

    /// Returns the score that hotword `i` must exceed to fire.
    pub fn threshold(&self, i: usize) -> (t: i32)
        requires
            self.wf(),
            i < self@.len(),
        ensures
            t == spec_threshold(self@[i as int]),
            0 <= t <= SCORE_SCALE,
    {
        proof {
            assert(self@[i as int] == self.entries@[i as int]@);
            lemma_ppm_bounds(self@[i as int]);
        }
        SCORE_SCALE - self.ppm[i] as i32
    }
}

} // verus!
