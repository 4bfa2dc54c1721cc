//! The inference-engine interface of a session and a deterministic fake
//! engine for running the state machine without a model.
use vstd::prelude::*;

use crate::text::{decimal, push_decimal, push_str};

verus! {

/// The ids or message of an engine answer.
pub open spec fn result_view(r: &Result<Vec<u32>, String>) -> Result<Seq<u32>, Seq<char>> {
    match r {
        Ok(ids) => Ok(ids@),
        Err(message) => Err(message@),
    }
}

/// The text or message of a decoding answer.
pub open spec fn text_view(r: &Result<String, String>) -> Result<Seq<char>, Seq<char>> {
    match r {
        Ok(text) => Ok(text@),
        Err(message) => Err(message@),
    }
}

/// An inference engine as a session drives it. Its answers are functions
/// of its state: `ids_for`, `final_ids` and `text_of` say what `push`,
/// `finish` and `decode` answer in a given state, and `fed` is the samples
/// it was fed so far.
pub trait AsrEngine {
    /// Samples fed to the engine so far, in order.
    spec fn fed(&self) -> Seq<i16>;

    /// What `push` answers for `samples` in this state: new ids or an error.
    spec fn ids_for(&self, samples: Seq<i16>) -> Result<Seq<u32>, Seq<char>>;

    /// What `finish` answers in this state: the last ids or an error.
    spec fn final_ids(&self) -> Result<Seq<u32>, Seq<char>>;

    /// What `decode` answers for `ids` in this state: their text or an error.
    spec fn text_of(&self, ids: Seq<u32>) -> Result<Seq<char>, Seq<char>>;

    /// Feeds 16 kHz mono 16-bit samples; returns the newly produced token ids.
    fn push(&mut self, samples: &[i16]) -> (r: Result<Vec<u32>, String>)
        ensures
            result_view(&r) == old(self).ids_for(samples@),
            final(self).fed() == old(self).fed() + samples@,
    ;

    /// Flushes the decoder; returns the last token ids.
    fn finish(&mut self) -> (r: Result<Vec<u32>, String>)
        ensures
            result_view(&r) == old(self).final_ids(),
            final(self).fed() == old(self).fed(),
    ;

    /// Text of all token ids accumulated by a session.
    fn decode(&self, ids: &[u32]) -> (r: Result<String, String>)
        ensures
            text_view(&r) == self.text_of(ids@),
    ;

    /// Name of the backend.
    fn backend(&self) -> &'static str;
}

/// What the fake engine's `push` answers with `buffered` samples held and
/// `next_id` next: one increasing id per full 1600 samples, or an error
/// should a counter overflow.
pub open spec fn fake_ids(buffered: nat, next_id: nat, samples: Seq<i16>) -> Result<Seq<u32>, Seq<char>> {
    let total = buffered + samples.len();
    let count = total / 1600;
    if total > usize::MAX {
        Err("fake engine sample counter overflow"@)
    } else if next_id + count > u32::MAX {
        Err("fake engine id counter overflow"@)
    } else {
        Ok(Seq::new(count, |k: int| (next_id + k) as u32))
    }
}

/// Text the fake engine gives `ids`: `字N` for every id `N`, concatenated.
pub open spec fn fake_text(ids: Seq<u32>) -> Seq<char>
    decreases ids.len(),
{
    if ids.len() == 0 {
        Seq::empty()
    } else {
        fake_text(ids.drop_last()) + "字"@ + decimal(ids.last() as nat)
    }
}

/// Deterministic fake engine: one increasing id per full 1600 samples.
pub struct FakeEngine {
    buffered: usize,
    next_id: u32,
    fed: Ghost<Seq<i16>>,
}

impl FakeEngine {
    /// Samples received since the last emitted id.
    pub closed spec fn buffered_view(&self) -> nat {
        self.buffered as nat
    }

    /// The id the next full block emits.
    pub closed spec fn next_id_view(&self) -> nat {
        self.next_id as nat
    }

    /// Samples fed so far.
    pub closed spec fn fed_view(&self) -> Seq<i16> {
        self.fed@
    }

    /// An engine with nothing buffered that emits id 0 first.
    pub fn new() -> (e: Self)
        ensures
            e.buffered_view() == 0,
            e.next_id_view() == 0,
            e.fed() == Seq::<i16>::empty(),
    {
        FakeEngine { buffered: 0, next_id: 0, fed: Ghost(Seq::empty()) }
    }
}

impl AsrEngine for FakeEngine {
    open spec fn fed(&self) -> Seq<i16> {
        self.fed_view()
    }

    open spec fn ids_for(&self, samples: Seq<i16>) -> Result<Seq<u32>, Seq<char>> {
        fake_ids(self.buffered_view(), self.next_id_view(), samples)
    }

    open spec fn final_ids(&self) -> Result<Seq<u32>, Seq<char>> {
        Ok(Seq::empty())
    }

    open spec fn text_of(&self, ids: Seq<u32>) -> Result<Seq<char>, Seq<char>> {
        Ok(fake_text(ids))
    }

    /// Emits one id per full 1600 buffered samples, counting up; fails
    /// without change should a counter overflow.
    fn push(&mut self, samples: &[i16]) -> (r: Result<Vec<u32>, String>)
        ensures
            ({
                let total = old(self).buffered_view() + samples@.len();
                let count = total / 1600;
                if total <= usize::MAX && old(self).next_id_view() + count <= u32::MAX {
                    &&& r matches Ok(ids) && ids@.len() == count
                        && forall|k: int| 0 <= k < count ==> #[trigger] ids@[k] == old(self).next_id_view() + k
                    &&& final(self).buffered_view() == total % 1600
                    &&& final(self).next_id_view() == old(self).next_id_view() + count
                } else {
                    &&& r is Err
                    &&& final(self).buffered_view() == old(self).buffered_view()
                    &&& final(self).next_id_view() == old(self).next_id_view()
                }
            }),
    {
        self.fed = Ghost(self.fed@ + samples@);
        let total = match self.buffered.checked_add(samples.len()) {
            Some(total) => total,
            None => {
                return Err("fake engine sample counter overflow".to_owned());
            },
        };
        let count = total / 1600;
        if count > (u32::MAX - self.next_id) as usize {
            return Err("fake engine id counter overflow".to_owned());
        }
        let mut ids: Vec<u32> = Vec::new();
        let mut buffered = total;
        let mut next_id = self.next_id;
        while buffered >= 1600
            invariant
                buffered <= total,
                (total - buffered) % 1600 == 0,
                ids@.len() == (total - buffered) / 1600,
                next_id == self.next_id + ids@.len(),
                count == total / 1600,
                self.next_id + count <= u32::MAX,
                forall|k: int| 0 <= k < ids@.len() ==> #[trigger] ids@[k] == self.next_id + k,
            decreases buffered,
        {
            buffered -= 1600;
            ids.push(next_id);
            next_id += 1;
        }
        self.buffered = buffered;
        self.next_id = next_id;
        assert(ids@ =~= Seq::new(count as nat, |k: int| (old(self).next_id_view() + k) as u32));
        Ok(ids)
    }

    /// Drops the buffered samples; emits nothing.
    fn finish(&mut self) -> (r: Result<Vec<u32>, String>)
        ensures
            r matches Ok(ids) && ids@.len() == 0,
            final(self).buffered_view() == 0,
            final(self).next_id_view() == old(self).next_id_view(),
    {
        self.buffered = 0;
        let r = Vec::new();
        assert(r@ =~= Seq::<u32>::empty());
        Ok(r)
    }

    /// `字N` for every id `N`, concatenated.
    fn decode(&self, ids: &[u32]) -> (r: Result<String, String>)
        ensures
            r matches Ok(text) && text@ == fake_text(ids@),
    {
        let mut text = String::new();
        let mut k: usize = 0;
        while k < ids.len()
            invariant
                k <= ids@.len(),
                text@ == fake_text(ids@.take(k as int)),
            decreases ids.len() - k,
        {
            push_str(&mut text, "字");
            push_decimal(&mut text, ids[k] as u64);
            proof {
                assert(ids@.take(k + 1).drop_last() =~= ids@.take(k as int));
            }
            k += 1;
        }
        proof {
            assert(ids@.take(ids@.len() as int) =~= ids@);
        }
        Ok(text)
    }

    /// `"fake"`.
    fn backend(&self) -> (r: &'static str)
        ensures
            r@ == "fake"@,
    {
        "fake"
    }
}

} // verus!
