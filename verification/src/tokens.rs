use vstd::prelude::*;

verus! {

/// Saturating addition on naturals bounded by `u64::MAX`.
pub open spec fn sat_add(a: int, b: int) -> int {
    if a + b > u64::MAX as int { u64::MAX as int } else { a + b }
}

/// Per-category token counts of one or many model calls.
#[derive(Debug, Clone, Copy, PartialEq, Eq)]
pub struct TokenBreakdown {
    pub input: u64,
    pub output: u64,
    pub cache_read: u64,
    pub cache_write: u64,
    pub reasoning: u64,
}

impl TokenBreakdown {
    /// The saturating sum of the five categories, added left to right.
    pub open spec fn spec_total(self) -> int {
        sat_add(
            sat_add(sat_add(sat_add(self.input as int, self.output as int), self.cache_read as int),
                self.cache_write as int),
            self.reasoning as int,
        )
    }

    /// Total tokens across all categories; saturates at `u64::MAX`.
    pub fn total(&self) -> (r: u64)
        ensures
            r == self.spec_total(),
    {
        self.input.saturating_add(self.output).saturating_add(self.cache_read).saturating_add(
            self.cache_write,
        ).saturating_add(self.reasoning)
    }
}

impl Default for TokenBreakdown {
    fn default() -> (r: Self)
        ensures
            r == (TokenBreakdown { input: 0, output: 0, cache_read: 0, cache_write: 0, reasoning: 0 }),
    {
        TokenBreakdown { input: 0, output: 0, cache_read: 0, cache_write: 0, reasoning: 0 }
    }
}


/// A signed count clamped at zero, as a natural number.
pub open spec fn clamp0(x: i64) -> int {
    if x < 0 {
        0
    } else {
        x as int
    }
}

/// Token counts as a parser reports them: signed, and negative when a source is corrupt.
#[derive(Debug, Clone, Copy, PartialEq, Eq)]
pub struct SignedTokens {
    pub input: i64,
    pub output: i64,
    pub cache_read: i64,
    pub cache_write: i64,
    pub reasoning: i64,
}

impl TokenBreakdown {
    /// Field-wise saturating sum of two breakdowns.
    pub open spec fn spec_plus(self, other: TokenBreakdown) -> TokenBreakdown {
        TokenBreakdown {
            input: sat_add(self.input as int, other.input as int) as u64,
            output: sat_add(self.output as int, other.output as int) as u64,
            cache_read: sat_add(self.cache_read as int, other.cache_read as int) as u64,
            cache_write: sat_add(self.cache_write as int, other.cache_write as int) as u64,
            reasoning: sat_add(self.reasoning as int, other.reasoning as int) as u64,
        }
    }

    /// The breakdown of signed counts, each negative count read as zero.
    pub open spec fn spec_from_signed(t: SignedTokens) -> TokenBreakdown {
        TokenBreakdown {
            input: clamp0(t.input) as u64,
            output: clamp0(t.output) as u64,
            cache_read: clamp0(t.cache_read) as u64,
            cache_write: clamp0(t.cache_write) as u64,
            reasoning: clamp0(t.reasoning) as u64,
        }
    }

    /// Adds another breakdown field by field, saturating at `u64::MAX`.
    pub fn add_tokens(&mut self, other: &TokenBreakdown)
        ensures
            *final(self) == old(self).spec_plus(*other),
    {
        self.input = self.input.saturating_add(other.input);
        self.output = self.output.saturating_add(other.output);
        self.cache_read = self.cache_read.saturating_add(other.cache_read);
        self.cache_write = self.cache_write.saturating_add(other.cache_write);
        self.reasoning = self.reasoning.saturating_add(other.reasoning);
    }

    /// Converts signed counts, reading negative counts as zero.
    pub fn from_signed(t: &SignedTokens) -> (r: TokenBreakdown)
        ensures
            r == TokenBreakdown::spec_from_signed(*t),
    {
        TokenBreakdown {
            input: if t.input < 0 { 0 } else { t.input as u64 },
            output: if t.output < 0 { 0 } else { t.output as u64 },
            cache_read: if t.cache_read < 0 { 0 } else { t.cache_read as u64 },
            cache_write: if t.cache_write < 0 { 0 } else { t.cache_write as u64 },
            reasoning: if t.reasoning < 0 { 0 } else { t.reasoning as u64 },
        }
    }
}

/// Saturating addition of token breakdowns is commutative.
pub proof fn lemma_plus_commutative(a: TokenBreakdown, b: TokenBreakdown)
    ensures
        a.spec_plus(b) == b.spec_plus(a),
{
}

/// Saturating addition of token breakdowns is associative: the order in which messages are
/// added up does not change a total.
pub proof fn lemma_plus_associative(a: TokenBreakdown, b: TokenBreakdown, c: TokenBreakdown)
    ensures
        a.spec_plus(b).spec_plus(c) == a.spec_plus(b.spec_plus(c)),
{
}

/// The tokens generated by a model call (output plus reasoning, negatives read as zero,
/// saturating).
pub open spec fn spec_generated_tokens(output: i64, reasoning: i64) -> int {
    let s = clamp0(output) + clamp0(reasoning);
    if s > i64::MAX as int { i64::MAX as int } else { s }
}

/// The tokens a model call generated: output plus reasoning, negatives read as zero.
pub fn generated_tokens(output: i64, reasoning: i64) -> (r: u64)
    ensures
        r == spec_generated_tokens(output, reasoning),
{
    let o = if output < 0 { 0 } else { output };
    let g = if reasoning < 0 { 0 } else { reasoning };
    if o > i64::MAX - g {
        i64::MAX as u64
    } else {
        (o + g) as u64
    }
}

/// Generation speed in tokens per second lies within the plausible 30-1000 range (and both
/// counts are non-zero).
pub open spec fn spec_reasonable_speed(generated: int, duration_ms: int) -> bool {
    generated > 0 && duration_ms > 0 && 30 * duration_ms <= 1000 * generated && generated
        <= duration_ms
}

/// Whether `generated_tokens` over `duration_ms` is a plausible generation speed: between 30
/// and 1000 tokens per second inclusive. The speed is compared exactly, as the fraction
/// `1000 * generated / duration`; a floating-point division `generated / (duration / 1000.0)`
/// rounds, and so can land just past a bound: 9 tokens in 9 ms is exactly 1000 tokens per
/// second (kept here), which that division reads as 1000.0000000000001.
pub fn has_reasonable_tokens_per_second(generated_tokens: u64, duration_ms: u64) -> (r: bool)
    ensures
        r == spec_reasonable_speed(generated_tokens as int, duration_ms as int),
{
    if generated_tokens == 0 || duration_ms == 0 {
        return false;
    }
    let g = generated_tokens as u128;
    let d = duration_ms as u128;
    30 * d <= 1000 * g && g <= d
}

} // verus!
