//! Keyword-spotting decisions: which spotter results count as the command
//! keyword, and the latch that reports it once per utterance.
use vstd::prelude::*;

use crate::text::str_equal;

verus! {

/// The keyword the spotter reports for the spoken submit command 幫我送出.
pub const EXPECTED_KEYWORD: &'static str = "SUBMIT_ZH";

/// A detected command keyword and where it starts.
#[derive(Debug, Clone, PartialEq, Eq)]
pub struct KeywordDetection {
    pub keyword: String,
    pub start_ms: u64,
}

/// The keyword of a spotter result, if there is a result.
pub open spec fn result_keyword(result: Option<(String, u64)>) -> Option<Seq<char>> {
    match result {
        Some((keyword, _)) => Some(keyword@),
        None => None,
    }
}

/// Whether a latch, latched or not, reports a spotter result with
/// `keyword`: only the expected keyword, and only while unlatched.
pub open spec fn latch_reports(latched: bool, keyword: Option<Seq<char>>) -> bool {
    !latched && keyword == Some(EXPECTED_KEYWORD@)
}

/// How many of the spotter results with `keywords`, decided in turn by a
/// latch that starts `latched` and is not reset, are reported.
pub open spec fn reports_count(latched: bool, keywords: Seq<Option<Seq<char>>>) -> nat
    decreases keywords.len(),
{
    if keywords.len() == 0 {
        0
    } else {
        let reported = latch_reports(latched, keywords[0]);
        (if reported { 1nat } else { 0nat }) + reports_count(latched || reported, keywords.drop_first())
    }
}

/// Between two resets the keyword is reported at most once, and never
/// again once it was: whatever the spotter results, a latch reports at
/// most one of them, and a latched one none.
pub proof fn lemma_latch_reports_once(latched: bool, keywords: Seq<Option<Seq<char>>>)
    ensures
        reports_count(latched, keywords) <= 1,
        latched ==> reports_count(latched, keywords) == 0,
    decreases keywords.len(),
{
    if keywords.len() > 0 {
        let reported = latch_reports(latched, keywords[0]);
        lemma_latch_reports_once(latched || reported, keywords.drop_first());
    }
}

/// Reports the command keyword at most once until reset.
#[derive(Debug, Clone, Copy, PartialEq, Eq)]
pub struct KeywordLatch {
    latched: bool,
}

impl KeywordLatch {
    /// Whether the keyword was already reported.
    pub closed spec fn latched_view(self) -> bool {
        self.latched
    }

    /// A latch that has reported nothing.
    pub fn new() -> (l: Self)
        ensures
            !l.latched_view(),
    {
        KeywordLatch { latched: false }
    }

    /// Re-arms the latch for a new utterance.
    pub fn reset(&mut self)
        ensures
            !final(self).latched_view(),
    {
        self.latched = false;
    }

    /// Whether more audio should be spotted: not once the keyword was
    /// reported.
    pub fn accepts_audio(&self) -> (r: bool)
        ensures
            r == !self.latched_view(),
    {
        !self.latched
    }

    /// Decides on a spotter result `(keyword, start_ms)`: only the expected
    /// keyword, and only while unlatched, is reported; reporting latches.
    pub fn detect(&mut self, result: Option<(String, u64)>) -> (r: Option<KeywordDetection>)
        ensures
            match result {
                Some((keyword, start_ms)) => if !old(self).latched_view() && keyword@ == EXPECTED_KEYWORD@ {
                    &&& r == Some(KeywordDetection { keyword, start_ms })
                    &&& final(self).latched_view()
                } else {
                    &&& r is None
                    &&& final(self).latched_view() == old(self).latched_view()
                },
                None => r is None && final(self).latched_view() == old(self).latched_view(),
            },
            r is Some == latch_reports(old(self).latched_view(), result_keyword(result)),
            final(self).latched_view() == (old(self).latched_view() || r is Some),
    {
        if self.latched {
            return None;
        }
        match result {
            None => None,
            Some((keyword, start_ms)) => {
                if !str_equal(keyword.as_str(), EXPECTED_KEYWORD) {
                    return None;
                }
                self.latched = true;
                Some(KeywordDetection { keyword, start_ms })
            },
        }
    }
}

} // verus!
