//! Tuning results, filed by the fingerprint of the device they hold for.

use crate::text::same_text;
use crate::tune::BenchResult;
use vstd::prelude::*;
use vstd::string::*;

verus! {

/// What tuning settled for a make of device.
#[derive(Clone, Copy)]
pub struct GpuProfile {
    pub batch_size: u64,
    pub pipeline_depth: u32,
}

/// Tuning results by fingerprint. No fingerprint occurs twice.
pub struct Profiles {
    pub entries: Vec<(String, GpuProfile)>,
}

/// Whether the entry at `i` is filed under `fp`.
pub open spec fn filed_at(s: Seq<(String, GpuProfile)>, fp: Seq<char>, i: int) -> bool {
    0 <= i < s.len() && s[i].0@ == fp
}

/// Whether an entry is filed under `fp`.
pub open spec fn filed(s: Seq<(String, GpuProfile)>, fp: Seq<char>) -> bool {
    exists|i: int| filed_at(s, fp, i)
}

/// The profile of the entry that is filed under `fp`.
pub open spec fn profile_of(s: Seq<(String, GpuProfile)>, fp: Seq<char>) -> GpuProfile {
    s[choose|i: int| filed_at(s, fp, i)].1
}

impl View for Profiles {
    type V = Map<Seq<char>, GpuProfile>;

    /// The profile of each fingerprint.
    open spec fn view(&self) -> Map<Seq<char>, GpuProfile> {
        let s = self.entries@;
        Map::new(|fp: Seq<char>| filed(s, fp), |fp: Seq<char>| profile_of(s, fp))
    }
}

impl Profiles {
    /// No fingerprint occurs twice.
    pub open spec fn wf(self) -> bool {
        forall|i: int, j: int|
            0 <= i < self.entries@.len() && 0 <= j < self.entries@.len() && (
            #[trigger] self.entries@[i]).0@ == (#[trigger] self.entries@[j]).0@ ==> i == j
    }

    /// What an entry says is what is filed under its fingerprint.
    pub proof fn lemma_entry(self, i: int)
        requires
            self.wf(),
            0 <= i < self.entries@.len(),
        ensures
            self@.dom().contains(self.entries@[i].0@),
            self@[self.entries@[i].0@] == self.entries@[i].1,
    {
        let fp = self.entries@[i].0@;
        assert(filed_at(self.entries@, fp, i));
        let k = choose|k: int| filed_at(self.entries@, fp, k);
        assert(self.entries@[k].0@ == self.entries@[i].0@);
    }

    /// No profiles.
    pub fn new() -> (p: Profiles)
        ensures
            p.wf(),
            p@ == Map::<Seq<char>, GpuProfile>::empty(),
    {
        let p = Profiles { entries: Vec::new() };
        assert(p@ =~= Map::<Seq<char>, GpuProfile>::empty());
        p
    }

    /// How many profiles there are.
    pub fn len(&self) -> (n: usize)
        requires
            self.wf(),
        ensures
            n == self@.dom().len(),
    {
        proof {
            self.lemma_len(self.entries@.len() as int);
            assert(self@.dom() =~= self.first_keys(self.entries@.len() as int)) by {
                assert forall|fp: Seq<char>| filed(self.entries@, fp) implies
                    self.first_keys(self.entries@.len() as int).contains(fp) by {
                    let i = choose|i: int| filed_at(self.entries@, fp, i);
                    assert(self.entries@[i].0@ == fp);
                }
            }
        }
        self.entries.len()
    }

    /// The fingerprints of the first `n` entries.
    pub open spec fn first_keys(self, n: int) -> Set<Seq<char>>
        decreases n,
    {
        if n <= 0 {
            Set::empty()
        } else {
            self.first_keys(n - 1).insert(self.entries@[n - 1].0@)
        }
    }

    /// The first `n` entries have `n` fingerprints, which are theirs.
    proof fn lemma_len(self, n: int)
        requires
            self.wf(),
            0 <= n <= self.entries@.len(),
        ensures
            self.first_keys(n).finite(),
            self.first_keys(n).len() == n,
            forall|fp: Seq<char>| #[trigger] self.first_keys(n).contains(fp) ==> exists|i: int|
                i < n && #[trigger] filed_at(self.entries@, fp, i),
            forall|i: int| 0 <= i < n ==> self.first_keys(n).contains((#[trigger] self.entries@[i]).0@),
        decreases n,
    {
        if n > 0 {
            self.lemma_len(n - 1);
            let fp = self.entries@[n - 1].0@;
            assert(!self.first_keys(n - 1).contains(fp)) by {
                if self.first_keys(n - 1).contains(fp) {
                    let i = choose|i: int| i < n - 1 && #[trigger] filed_at(self.entries@, fp, i);
                    assert(self.entries@[i].0@ == self.entries@[n - 1].0@);
                }
            }
            assert(filed_at(self.entries@, fp, n - 1));
        }
    }

    /// The position of the entry that is filed under `fp`.
    fn find(&self, fp: &str) -> (at: Option<usize>)
        requires
            self.wf(),
        ensures
            match at {
                Some(i) => filed_at(self.entries@, fp@, i as int),
                None => !filed(self.entries@, fp@),
            },
    {
        let mut i: usize = 0;
        while i < self.entries.len()
            invariant
                i <= self.entries@.len(),
                forall|j: int| 0 <= j < i ==> !#[trigger] filed_at(self.entries@, fp@, j),
            decreases self.entries.len() - i,
        {
            if same_text(self.entries[i].0.as_str(), fp) {
                return Some(i);
            }
            i = i + 1;
        }
        None
    }

    /// The profile that is filed under `fp`.
    pub fn get(&self, fp: &str) -> (p: Option<GpuProfile>)
        requires
            self.wf(),
        ensures
            p == if self@.dom().contains(fp@) {
                Some(self@[fp@])
            } else {
                None
            },
    {
        match self.find(fp) {
            Some(i) => {
                proof {
                    self.lemma_entry(i as int);
                }
                Some(self.entries[i].1)
            },
            None => None,
        }
    }

    /// Files a profile under `fp`, in place of the one that was there.
    pub fn insert(&mut self, fp: String, p: GpuProfile)
        requires
            old(self).wf(),
        ensures
            final(self).wf(),
            final(self)@ == old(self)@.insert(fp@, p),
    {
        let ghost key = fp@;
        let at: Option<usize> = self.find(fp.as_str());
        match at {
            Some(i) => {
                self.entries.set(i, (fp, p));
            },
            None => {
                self.entries.push((fp, p));
            },
        }
        proof {
            let (s, t) = (old(self).entries@, self.entries@);
            let k = match at {
                Some(i) => i as int,
                None => s.len() as int,
            };
            assert forall|i: int, j: int|
                0 <= i < t.len() && 0 <= j < t.len() && (#[trigger] t[i]).0@ == (
                #[trigger] t[j]).0@ implies i == j by {
                if i == k && j != k {
                    assert(filed_at(s, key, j));
                } else if j == k && i != k {
                    assert(filed_at(s, key, i));
                }
            }
            assert forall|f: Seq<char>| filed(t, f) == (filed(s, f) || f == key) by {
                if filed(s, f) {
                    let i = choose|i: int| filed_at(s, f, i);
                    assert(filed_at(t, f, i));
                }
                if f == key {
                    assert(filed_at(t, f, k));
                }
                if filed(t, f) {
                    let i = choose|i: int| filed_at(t, f, i);
                    assert(f == key || filed_at(s, f, i));
                }
            }
            assert forall|f: Seq<char>| filed(t, f) implies profile_of(t, f) == old(self)@.insert(
                key,
                p,
            )[f] by {
                if f == key {
                    self.lemma_entry(k);
                } else {
                    let i = choose|i: int| filed_at(s, f, i);
                    old(self).lemma_entry(i);
                    self.lemma_entry(i);
                }
            }
            assert(self@ =~= old(self)@.insert(key, p));
        }
    }

    /// Takes over a tuning result from the settings of a single device, where
    /// that is complete and nothing is filed under its fingerprint yet.
    pub fn adopt(&mut self, fingerprint: &str, batch_size: u64, pipeline_depth: u32)
        requires
            old(self).wf(),
        ensures
            final(self).wf(),
            final(self)@ == adopted(old(self)@, fingerprint@, batch_size, pipeline_depth),
    {
        if !fingerprint.is_empty() && batch_size > 0 && pipeline_depth > 0 {
            if self.get(fingerprint).is_none() {
                self.insert(fingerprint.to_owned(), GpuProfile { batch_size, pipeline_depth });
            }
        }
    }
}

/// The profiles with a tuning result from the settings of a single device: it
/// counts where it is complete, and never against a profile.
pub open spec fn adopted(
    profiles: Map<Seq<char>, GpuProfile>,
    fingerprint: Seq<char>,
    batch_size: u64,
    pipeline_depth: u32,
) -> Map<Seq<char>, GpuProfile> {
    if fingerprint.len() > 0 && batch_size > 0 && pipeline_depth > 0
        && !profiles.dom().contains(fingerprint) {
        profiles.insert(fingerprint, GpuProfile { batch_size, pipeline_depth })
    } else {
        profiles
    }
}

/// What to do with a card before it mines.
#[derive(Clone, Copy)]
pub enum CardPlan {
    /// Tune it: because that was asked for, or because its make is new.
    Tune { forced: bool },
    /// Run it as its make was tuned before.
    Reuse(GpuProfile),
}

/// What to do with a card of the given fingerprint.
pub open spec fn card_plan(
    profiles: Map<Seq<char>, GpuProfile>,
    fp: Seq<char>,
    retune: bool,
) -> CardPlan {
    if retune || !profiles.dom().contains(fp) {
        CardPlan::Tune { forced: retune }
    } else {
        CardPlan::Reuse(profiles[fp])
    }
}

/// The cards as they are got ready, one after the other.
pub struct Fleet {
    pub profiles: Profiles,
    /// Whether tuning was asked for.
    pub retune: bool,
    /// Whether a card was tuned, so that the profiles are to be written back.
    pub updated: bool,
    /// The batch size and the depth that each card so far runs with.
    pub cards: Vec<GpuProfile>,
}

impl Fleet {
    /// The profiles have no fingerprint twice.
    pub open spec fn wf(self) -> bool {
        self.profiles.wf()
    }

    /// No card is ready yet.
    pub fn new(profiles: Profiles, retune: bool) -> (f: Fleet)
        requires
            profiles.wf(),
        ensures
            f.wf(),
            f.profiles == profiles,
            f.retune == retune,
            !f.updated,
            f.cards@.len() == 0,
    {
        Fleet { profiles, retune, updated: false, cards: Vec::new() }
    }

    /// What to do with the next card.
    pub fn plan(&self, fp: &str) -> (p: CardPlan)
        requires
            self.wf(),
        ensures
            p == card_plan(self.profiles@, fp@, self.retune),
    {
        match self.profiles.get(fp) {
            Some(p) => if self.retune {
                CardPlan::Tune { forced: true }
            } else {
                CardPlan::Reuse(p)
            },
            None => CardPlan::Tune { forced: self.retune },
        }
    }

    /// The next card was tuned: its result is filed and it runs with it.
    pub fn on_tuned(&mut self, fp: String, bench: &BenchResult)
        requires
            old(self).wf(),
        ensures
            final(self).wf(),
            final(self).profiles@ == old(self).profiles@.insert(fp@, bench_profile(*bench)),
            final(self).cards@ == old(self).cards@.push(bench_profile(*bench)),
            final(self).updated,
            final(self).retune == old(self).retune,
    {
        let p = GpuProfile {
            batch_size: bench.batch_size,
            pipeline_depth: bench.pipeline_depth,
        };
        self.profiles.insert(fp, p);
        self.cards.push(p);
        self.updated = true;
    }

    /// The next card runs as its make was tuned before.
    pub fn on_reuse(&mut self, p: GpuProfile)
        requires
            old(self).wf(),
        ensures
            final(self).wf(),
            final(self).profiles == old(self).profiles,
            final(self).cards@ == old(self).cards@.push(p),
            final(self).updated == old(self).updated,
            final(self).retune == old(self).retune,
    {
        self.cards.push(p);
    }
}

/// The profile that a benchmark settles.
pub open spec fn bench_profile(b: BenchResult) -> GpuProfile {
    GpuProfile { batch_size: b.batch_size, pipeline_depth: b.pipeline_depth }
}

/// Cards of one make share a profile: once a card was tuned, the next of its
/// make is not, unless tuning was asked for, and runs as the first does. A make
/// without a profile is always tuned.
pub proof fn law_same_make_is_tuned_once(
    profiles: Map<Seq<char>, GpuProfile>,
    fp: Seq<char>,
    other: Seq<char>,
    b: BenchResult,
    retune: bool,
)
    ensures
        card_plan(profiles.insert(fp, bench_profile(b)), fp, false) == CardPlan::Reuse(
            bench_profile(b),
        ),
        other != fp ==> card_plan(profiles.insert(fp, bench_profile(b)), other, retune)
            == card_plan(profiles, other, retune),
        !profiles.dom().contains(fp) ==> card_plan(profiles, fp, retune) is Tune,
        retune ==> card_plan(profiles, fp, retune) is Tune,
{
}

/// A tuning result of a single device loses against a profile, and taking it
/// over twice is taking it over once.
pub proof fn law_adopting_changes_no_profile(
    profiles: Map<Seq<char>, GpuProfile>,
    fp: Seq<char>,
    batch_size: u64,
    pipeline_depth: u32,
    any: Seq<char>,
)
    ensures
        profiles.dom().contains(any) ==> adopted(profiles, fp, batch_size, pipeline_depth).dom().contains(any)
            && adopted(profiles, fp, batch_size, pipeline_depth)[any] == profiles[any],
        adopted(adopted(profiles, fp, batch_size, pipeline_depth), fp, batch_size, pipeline_depth)
            == adopted(profiles, fp, batch_size, pipeline_depth),
{
}

/// The profiles hold exactly what their entries say: a fingerprint is known where
/// an entry has it, and its profile is that entry's.
pub proof fn law_profiles_are_their_entries(p: Profiles, fp: Seq<char>, i: int)
    requires
        p.wf(),
    ensures
        p@.dom().contains(fp) <==> exists|j: int|
            0 <= j < p.entries@.len() && (#[trigger] p.entries@[j]).0@ == fp,
        0 <= i < p.entries@.len() && p.entries@[i].0@ == fp ==> p@[fp] == p.entries@[i].1,
{
    if p@.dom().contains(fp) {
        let j = choose|j: int| filed_at(p.entries@, fp, j);
        assert(p.entries@[j].0@ == fp);
    }
    if exists|j: int| 0 <= j < p.entries@.len() && (#[trigger] p.entries@[j]).0@ == fp {
        let j = choose|j: int| 0 <= j < p.entries@.len() && (#[trigger] p.entries@[j]).0@ == fp;
        assert(filed_at(p.entries@, fp, j));
    }
    if 0 <= i < p.entries@.len() && p.entries@[i].0@ == fp {
        p.lemma_entry(i);
    }
}

/// A complete tuning result of a single device is taken over as it is where its
/// fingerprint is new; an incomplete one never is; and no other fingerprint is
/// touched.
pub proof fn law_adopting_takes_complete_results(
    profiles: Map<Seq<char>, GpuProfile>,
    fp: Seq<char>,
    batch_size: u64,
    pipeline_depth: u32,
    other: Seq<char>,
)
    ensures
        fp.len() > 0 && batch_size > 0 && pipeline_depth > 0 && !profiles.dom().contains(fp) ==> {
            &&& adopted(profiles, fp, batch_size, pipeline_depth).dom().contains(fp)
            &&& adopted(profiles, fp, batch_size, pipeline_depth)[fp].batch_size == batch_size
            &&& adopted(profiles, fp, batch_size, pipeline_depth)[fp].pipeline_depth
                == pipeline_depth
        },
        fp.len() == 0 || batch_size == 0 || pipeline_depth == 0 ==> adopted(
            profiles,
            fp,
            batch_size,
            pipeline_depth,
        ) == profiles,
        other != fp ==> adopted(profiles, fp, batch_size, pipeline_depth).dom().contains(other)
            == profiles.dom().contains(other),
{
}

/// A card is tuned exactly where that was asked for or its make is new, and is
/// told which; else it runs with the profile of its make.
pub proof fn law_card_plan(profiles: Map<Seq<char>, GpuProfile>, fp: Seq<char>, retune: bool)
    ensures
        card_plan(profiles, fp, retune) is Tune <==> retune || !profiles.dom().contains(fp),
        card_plan(profiles, fp, retune) matches CardPlan::Tune { forced } ==> forced == retune,
        card_plan(profiles, fp, retune) matches CardPlan::Reuse(p) ==> p.batch_size
            == profiles[fp].batch_size && p.pipeline_depth == profiles[fp].pipeline_depth,
{
}

/// What a benchmark settles is filed as it is.
pub proof fn law_benchmarks_are_filed_as_they_are(b: BenchResult)
    ensures
        bench_profile(b).batch_size == b.batch_size,
        bench_profile(b).pipeline_depth == b.pipeline_depth,
{
}

} // verus!
