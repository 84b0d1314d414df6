//! The candidate of the v2 algorithm: a part of a candidate whose bonuses are
//! computed once and kept.

use vstd::prelude::*;

use super::engine::CandidateOpts;
use super::scoring::{char_class, compute_bonus, lemma_bonus_bounds, spec_bonus, spec_char_class, CharClass, Scheme};
use super::slab::{Bonus, BonusSlab};
use crate::candidate::{spec_matches, Candidate};

verus! {

/// A candidate whose character bonuses are cached.
pub struct CandidateV2<'a> {
    bonuses: Vec<Bonus>,
    base: Candidate<'a>,
    initial_char_class: CharClass,
    opts: CandidateOpts,
}

impl<'a> CandidateV2<'a> {
    /// The candidate.
    pub closed spec fn spec_base(&self) -> Candidate<'a> {
        self.base
    }

    /// The class assumed before the first character.
    pub closed spec fn spec_initial_char_class(&self) -> CharClass {
        self.initial_char_class
    }

    /// How characters are compared.
    pub closed spec fn spec_opts(&self) -> CandidateOpts {
        self.opts
    }

    /// The bonus of the character at `idx`.
    pub open spec fn spec_bonus_at(&self, idx: int, scheme: Scheme) -> i64 {
        let s = self.spec_base()@;
        let prev = if idx == 0 {
            self.spec_initial_char_class()
        } else {
            spec_char_class(s[idx - 1], scheme)
        };
        spec_bonus(prev, spec_char_class(s[idx], scheme), scheme)
    }

    /// Whether the bonus of the character at `idx` is cached.
    pub closed spec fn spec_is_cached(&self, idx: int) -> bool {
        self.bonuses@[idx].spec_is_set()
    }

    /// Every cached bonus is the bonus of its character under `scheme`.
    pub closed spec fn wf(&self, scheme: Scheme) -> bool {
        &&& self.bonuses@.len() == self.base@.len()
        &&& forall|k: int|
            0 <= k < self.bonuses@.len() && (#[trigger] self.bonuses@[k]).spec_is_set() ==> self.bonuses@[k].spec_value()
                == self.spec_bonus_at(k, scheme)
    }

    /// The candidate `base`, with no bonus cached yet.
    pub fn new(
        base: Candidate<'a>,
        bonus_slab: &mut BonusSlab,
        initial_char_class: CharClass,
        opts: CandidateOpts,
    ) -> (r: CandidateV2<'a>)
        ensures
            r.spec_base() == base,
            r.spec_initial_char_class() == initial_char_class,
            r.spec_opts() == opts,
            forall|scheme: Scheme| #[trigger] r.wf(scheme),
            forall|k: int| 0 <= k < base@.len() ==> !#[trigger] r.spec_is_cached(k),
    {
        let bonuses = bonus_slab.allocate(base.char_len());
        CandidateV2 { bonuses, base, initial_char_class, opts }
    }

    /// The bonus of the character at `char_idx`, computed the first time and
    /// cached.
    pub fn bonus_at(&mut self, char_idx: usize, scheme: &Scheme) -> (r: i64)
        requires
            old(self).wf(*scheme),
            char_idx < old(self).spec_base()@.len(),
            scheme.is_predefined(),
        ensures
            r == old(self).spec_bonus_at(char_idx as int, *scheme),
            final(self).wf(*scheme),
            final(self).spec_base() == old(self).spec_base(),
            final(self).spec_initial_char_class() == old(self).spec_initial_char_class(),
            final(self).spec_opts() == old(self).spec_opts(),
            final(self).spec_is_cached(char_idx as int),
            forall|k: int|
                0 <= k < old(self).spec_base()@.len() && k != char_idx ==> #[trigger] final(self).spec_is_cached(k)
                    == old(self).spec_is_cached(k),
    {
        let cached = self.bonuses[char_idx];
        if cached.is_set() {
            return cached.value();
        }
        let prev_class = if char_idx == 0 {
            self.initial_char_class
        } else {
            char_class(self.base.char(char_idx - 1), scheme)
        };
        let this_class = char_class(self.base.char(char_idx), scheme);
        let bonus = compute_bonus(prev_class, this_class, scheme);
        proof {
            lemma_bonus_bounds(prev_class, this_class, *scheme);
        }
        let mut b = cached;
        b.set(bonus);
        self.bonuses.set(char_idx, b);
        bonus
    }

    /// The character at `char_idx`.
    pub fn char(&self, char_idx: usize) -> (r: char)
        requires
            char_idx < self.spec_base()@.len(),
        ensures
            r == self.spec_base()@[char_idx as int],
    {
        self.base.char(char_idx)
    }

    /// The number of characters.
    pub fn char_len(&self) -> (r: usize)
        ensures
            r == self.spec_base()@.len(),
    {
        self.base.char_len()
    }

    /// The candidate, without its cache.
    pub fn into_base(self) -> (r: Candidate<'a>)
        ensures
            r == self.spec_base(),
    {
        self.base
    }

    /// The indices of the characters that match `ch`.
    pub fn matches(&self, ch: char) -> (r: Vec<usize>)
        requires
            self.spec_base().wf(),
            self.spec_opts().char_eq.is_case_sensitive == self.spec_opts().is_case_sensitive,
        ensures
            r@ == spec_matches(
                self.spec_base()@,
                0,
                self.spec_base()@.len() as int,
                ch,
                self.spec_opts().char_eq,
            ),
    {
        self.base.matches(ch, self.opts.is_case_sensitive, self.opts.char_eq)
    }

    /// The indices, from `char_offset` on, of the characters that match `ch`.
    pub fn matches_from(&self, char_offset: usize, ch: char) -> (r: Vec<usize>)
        requires
            self.spec_base().wf(),
            char_offset <= self.spec_base()@.len(),
            self.spec_opts().char_eq.is_case_sensitive == self.spec_opts().is_case_sensitive,
        ensures
            r@ == spec_matches(
                self.spec_base()@,
                char_offset as int,
                self.spec_base()@.len() as int,
                ch,
                self.spec_opts().char_eq,
            ),
    {
        self.base.matches_from(char_offset, ch, self.opts.is_case_sensitive, self.opts.char_eq)
    }
}

} // verus!
