//! Concepts, their categories and their decay.

use vstd::prelude::*;
use crate::clock::now;
use crate::fixed::clamp_unit;
use crate::fixed::clamp_unit_spec;
use crate::fixed::days_between;
use crate::fixed::days_between_spec;
use crate::fixed::decay;
use crate::fixed::decay_spec;
use crate::fixed::lemma_decay_bounds;
use crate::fixed::lemma_decay_monotone_times;
use crate::fixed::UNIT;
use crate::ids::new_id;
use crate::metadata::Metadata;
use crate::text::chars_of;
use crate::text::lowercase_spec;
use crate::text::lowercase_str;
use crate::text::owned;
use crate::text::same_text;
use crate::text::trim;
use crate::text::trim_spec;

verus! {

/// The kinds of knowledge.
#[derive(Debug, Clone, Copy, PartialEq, Eq, Hash, Structural)]
pub enum ConceptCategory {
    /// Facts about the user or the world.
    Facts,
    /// Rules and instructions.
    Rules,
    /// Likes and dislikes.
    Preferences,
    /// Abilities.
    Skills,
    /// Aims and dreams.
    Goals,
    /// Anything else.
    General,
}

/// How the confidence in a concept fades: every `period_days` without an
/// update it is multiplied by `decay_rate`, and below `min_confidence` the
/// concept is forgotten. Rate and floor are in millionths.
#[derive(Debug, Clone, Copy, PartialEq, Eq, Structural)]
pub struct DecayConfig {
    pub period_days: u32,
    pub decay_rate: i64,
    pub min_confidence: i64,
}

impl Default for DecayConfig {
    fn default() -> (config: DecayConfig)
        ensures
            config == (DecayConfig { period_days: 30, decay_rate: 900_000, min_confidence: 100_000 }),
    {
        DecayConfig { period_days: 30, decay_rate: 900_000, min_confidence: 100_000 }
    }
}

impl Default for ConceptCategory {
    fn default() -> (category: ConceptCategory)
        ensures
            category == ConceptCategory::General,
    {
        ConceptCategory::General
    }
}

impl ConceptCategory {
    /// The name of the category, in lower case.
    pub open spec fn name_spec(self) -> Seq<char> {
        match self {
            ConceptCategory::Facts => "facts"@,
            ConceptCategory::Rules => "rules"@,
            ConceptCategory::Preferences => "preferences"@,
            ConceptCategory::Skills => "skills"@,
            ConceptCategory::Goals => "goals"@,
            ConceptCategory::General => "general"@,
        }
    }

    /// The category that a lower-case name denotes.
    pub open spec fn of_name_spec(name: Seq<char>) -> Option<ConceptCategory> {
        if name == "facts"@ {
            Some(ConceptCategory::Facts)
        } else if name == "rules"@ {
            Some(ConceptCategory::Rules)
        } else if name == "preferences"@ {
            Some(ConceptCategory::Preferences)
        } else if name == "skills"@ {
            Some(ConceptCategory::Skills)
        } else if name == "goals"@ {
            Some(ConceptCategory::Goals)
        } else if name == "general"@ {
            Some(ConceptCategory::General)
        } else {
            None
        }
    }

    /// The decay parameters of each category: durable knowledge fades slowly,
    /// volatile knowledge fast.
    pub open spec fn decay_config_spec(self) -> DecayConfig {
        match self {
            ConceptCategory::Facts => DecayConfig {
                period_days: 30,
                decay_rate: 950_000,
                min_confidence: 50_000,
            },
            ConceptCategory::Rules => DecayConfig {
                period_days: 60,
                decay_rate: 980_000,
                min_confidence: 50_000,
            },
            ConceptCategory::Preferences => DecayConfig {
                period_days: 20,
                decay_rate: 900_000,
                min_confidence: 100_000,
            },
            ConceptCategory::Skills => DecayConfig {
                period_days: 90,
                decay_rate: 980_000,
                min_confidence: 50_000,
            },
            ConceptCategory::Goals => DecayConfig {
                period_days: 15,
                decay_rate: 850_000,
                min_confidence: 100_000,
            },
            ConceptCategory::General => DecayConfig {
                period_days: 25,
                decay_rate: 920_000,
                min_confidence: 50_000,
            },
        }
    }

    /// The position of the category in the category index.
    pub open spec fn ordinal_spec(self) -> int {
        match self {
            ConceptCategory::Facts => 0,
            ConceptCategory::Rules => 1,
            ConceptCategory::Preferences => 2,
            ConceptCategory::Skills => 3,
            ConceptCategory::Goals => 4,
            ConceptCategory::General => 5,
        }
    }

    /// The position of the category in the category index.
    pub fn ordinal(&self) -> (position: usize)
        ensures
            position == self.ordinal_spec(),
            position < 6,
    {
        match self {
            ConceptCategory::Facts => 0,
            ConceptCategory::Rules => 1,
            ConceptCategory::Preferences => 2,
            ConceptCategory::Skills => 3,
            ConceptCategory::Goals => 4,
            ConceptCategory::General => 5,
        }
    }

    /// The name of the category, in lower case.
    pub fn name(&self) -> (name: &'static str)
        ensures
            name@ == self.name_spec(),
    {
        match self {
            ConceptCategory::Facts => "facts",
            ConceptCategory::Rules => "rules",
            ConceptCategory::Preferences => "preferences",
            ConceptCategory::Skills => "skills",
            ConceptCategory::Goals => "goals",
            ConceptCategory::General => "general",
        }
    }

    /// The name of the category as an owned string.
    pub fn to_string(&self) -> (name: String)
        ensures
            name@ == self.name_spec(),
    {
        owned(self.name())
    }

    /// The category that a lower-case name denotes, if any.
    pub fn from_lowercase(name: &str) -> (category: Option<ConceptCategory>)
        ensures
            category == Self::of_name_spec(name@),
    {
        if same_text(name, "facts") {
            Some(ConceptCategory::Facts)
        } else if same_text(name, "rules") {
            Some(ConceptCategory::Rules)
        } else if same_text(name, "preferences") {
            Some(ConceptCategory::Preferences)
        } else if same_text(name, "skills") {
            Some(ConceptCategory::Skills)
        } else if same_text(name, "goals") {
            Some(ConceptCategory::Goals)
        } else if same_text(name, "general") {
            Some(ConceptCategory::General)
        } else {
            None
        }
    }

    /// The category that a name denotes, whatever its case.
    pub fn parse(name: &str) -> (category: Option<ConceptCategory>)
        ensures
            category == Self::of_name_spec(lowercase_spec(name@)),
    {
        let lower = lowercase_str(name);
        Self::from_lowercase(lower.as_str())
    }

    /// The decay parameters of the category.
    pub fn get_decay_config(&self) -> (config: DecayConfig)
        ensures
            config == self.decay_config_spec(),
            config.period_days > 0,
            0 <= config.min_confidence <= UNIT,
            0 <= config.decay_rate <= UNIT,
    {
        match self {
            ConceptCategory::Facts => DecayConfig {
                period_days: 30,
                decay_rate: 950_000,
                min_confidence: 50_000,
            },
            ConceptCategory::Rules => DecayConfig {
                period_days: 60,
                decay_rate: 980_000,
                min_confidence: 50_000,
            },
            ConceptCategory::Preferences => DecayConfig {
                period_days: 20,
                decay_rate: 900_000,
                min_confidence: 100_000,
            },
            ConceptCategory::Skills => DecayConfig {
                period_days: 90,
                decay_rate: 980_000,
                min_confidence: 50_000,
            },
            ConceptCategory::Goals => DecayConfig {
                period_days: 15,
                decay_rate: 850_000,
                min_confidence: 100_000,
            },
            ConceptCategory::General => DecayConfig {
                period_days: 25,
                decay_rate: 920_000,
                min_confidence: 50_000,
            },
        }
    }
}

/// Every category is read back from its own name.
pub proof fn lemma_category_name_round_trip(category: ConceptCategory)
    ensures
        ConceptCategory::of_name_spec(category.name_spec()) == Some(category),
{
    reveal_strlit("facts");
    reveal_strlit("rules");
    reveal_strlit("preferences");
    reveal_strlit("skills");
    reveal_strlit("goals");
    reveal_strlit("general");
    assert("facts"@.len() == 5);
    assert("rules"@.len() == 5);
    assert("preferences"@.len() == 11);
    assert("skills"@.len() == 6);
    assert("goals"@.len() == 5);
    assert("general"@.len() == 7);
    assert("facts"@[0] == 'f');
    assert("rules"@[0] == 'r');
    assert("goals"@[0] == 'g');
    assert("skills"@[0] == 's');
    assert("general"@[0] == 'g');
}

/// One unit of semantic knowledge.
#[derive(Debug, Clone)]
pub struct Concept {
    /// Unique identifier.
    pub id: u128,
    /// What is known.
    pub text: String,
    /// The kind of knowledge.
    pub category: ConceptCategory,
    /// How sure the knowledge is, in millionths, from 0 to `UNIT`.
    pub confidence: i64,
    /// Where the knowledge comes from: a session identifier, or "manual".
    pub source: String,
    /// The embedding of the text.
    pub embedding: Vec<u32>,
    /// Free annotations.
    pub metadata: Metadata,
    /// When the concept was created.
    pub created_at: i64,
    /// When the concept was last updated.
    pub updated_at: i64,
    /// How often the concept has been used.
    pub usage_count: u32,
    /// Concepts that a relation links this one to.
    pub related_concepts: Vec<u128>,
}

/// The mathematical value of a `Concept`.
pub struct ConceptView {
    pub id: u128,
    pub text: Seq<char>,
    pub category: ConceptCategory,
    pub confidence: i64,
    pub source: Seq<char>,
    pub embedding: Seq<u32>,
    pub metadata: Seq<(Seq<char>, Seq<char>)>,
    pub created_at: i64,
    pub updated_at: i64,
    pub usage_count: u32,
    pub related_concepts: Seq<u128>,
}

impl View for Concept {
    type V = ConceptView;

    open spec fn view(&self) -> ConceptView {
        ConceptView {
            id: self.id,
            text: self.text@,
            category: self.category,
            confidence: self.confidence,
            source: self.source@,
            embedding: self.embedding@,
            metadata: self.metadata@,
            created_at: self.created_at,
            updated_at: self.updated_at,
            usage_count: self.usage_count,
            related_concepts: self.related_concepts@,
        }
    }
}

/// The confidence given to a concept when none is stated: one half.
pub const DEFAULT_CONFIDENCE: i64 = 500_000;

impl ConceptView {
    /// The confidence lies between nothing and one.
    pub open spec fn wf(self) -> bool {
        0 <= self.confidence <= UNIT
    }

    /// Whole days since the last update, seen from `now`.
    pub open spec fn days_idle(self, now: i64) -> int {
        days_between_spec(self.updated_at, now)
    }

    /// Whole decay periods since the last update, seen from `now`.
    pub open spec fn periods_idle(self, now: i64) -> int {
        self.days_idle(now) / (self.category.decay_config_spec().period_days as int)
    }

    /// The confidence after the decay due at `now`.
    pub open spec fn decayed_confidence(self, now: i64) -> int {
        decay_spec(
            self.confidence as int,
            self.category.decay_config_spec().decay_rate as int,
            self.periods_idle(now) as nat,
        )
    }

    /// The confidence as it counts at `now`: unchanged within the first decay
    /// period, afterwards decayed once per whole period but never below the
    /// floor of the category.
    pub open spec fn effective_confidence(self, now: i64) -> int {
        let config = self.category.decay_config_spec();
        if self.days_idle(now) < config.period_days {
            self.confidence as int
        } else if self.decayed_confidence(now) < config.min_confidence {
            config.min_confidence as int
        } else {
            self.decayed_confidence(now)
        }
    }

    /// The concept after the decay due at `now` has been applied.
    pub open spec fn after_decay(self, now: i64) -> ConceptView {
        let config = self.category.decay_config_spec();
        if self.days_idle(now) < config.period_days {
            self
        } else {
            ConceptView { confidence: self.decayed_confidence(now) as i64, updated_at: now, ..self }
        }
    }

    /// Whether the concept is still worth keeping once the decay due at `now`
    /// has been applied.
    pub open spec fn survives_decay(self, now: i64) -> bool {
        let config = self.category.decay_config_spec();
        self.days_idle(now) < config.period_days || self.decayed_confidence(now)
            >= config.min_confidence
    }
}

impl Concept {
    /// The confidence lies between nothing and one.
    pub open spec fn wf(&self) -> bool {
        self@.wf()
    }

    /// A concept with the given identity and time of creation, the default
    /// confidence, and nothing else.
    pub fn with_identity(
        id: u128,
        created_at: i64,
        text: String,
        category: ConceptCategory,
        source: String,
    ) -> (concept: Concept)
        ensures
            concept.wf(),
            concept@ == (ConceptView {
                id,
                text: text@,
                category,
                confidence: DEFAULT_CONFIDENCE,
                source: source@,
                embedding: Seq::empty(),
                metadata: Seq::empty(),
                created_at,
                updated_at: created_at,
                usage_count: 0,
                related_concepts: Seq::empty(),
            }),
    {
        Concept {
            id,
            text,
            category,
            confidence: DEFAULT_CONFIDENCE,
            source,
            embedding: Vec::new(),
            metadata: Metadata::new(),
            created_at,
            updated_at: created_at,
            usage_count: 0,
            related_concepts: Vec::new(),
        }
    }

    /// A new concept with a fresh identifier, created now.
    pub fn new(text: String, category: ConceptCategory, source: String) -> (concept: Concept)
        ensures
            concept.wf(),
            concept@ == (ConceptView {
                id: concept.id,
                text: text@,
                category,
                confidence: DEFAULT_CONFIDENCE,
                source: source@,
                embedding: Seq::empty(),
                metadata: Seq::empty(),
                created_at: concept.created_at,
                updated_at: concept.created_at,
                usage_count: 0,
                related_concepts: Seq::empty(),
            }),
    {
        let id = new_id();
        let created_at = now();
        Concept::with_identity(id, created_at, text, category, source)
    }

    /// The concept with the given confidence, held within nothing and one.
    pub fn with_confidence(self, confidence: i64) -> (concept: Concept)
        ensures
            concept.wf(),
            concept@ == (ConceptView {
                confidence: clamp_unit_spec(confidence as int) as i64,
                ..self@
            }),
    {
        let mut concept = self;
        concept.confidence = clamp_unit(confidence);
        concept
    }

    /// The concept with one more annotation.
    pub fn with_metadata(self, key: String, value: String) -> (concept: Concept)
        ensures
            concept@ == (ConceptView { metadata: self@.metadata.push((key@, value@)), ..self@ }),
    {
        let mut concept = self;
        concept.metadata.insert(key, value);
        concept
    }

    /// Whether the concept says anything: its text is not blank.
    pub fn is_valid(&self) -> (valid: bool)
        ensures
            valid == (trim_spec(self@.text).len() > 0),
    {
        let chars = chars_of(self.text.as_str());
        let trimmed = trim(chars.as_slice());
        trimmed.len() > 0
    }

    /// A copy of the concept.
    pub fn duplicate(&self) -> (copy: Concept)
        ensures
            copy@ == self@,
    {
        let embedding = self.embedding.clone();
        let related_concepts = self.related_concepts.clone();
        assert(embedding@ =~= self.embedding@);
        assert(related_concepts@ =~= self.related_concepts@);
        Concept {
            id: self.id,
            text: self.text.clone(),
            category: self.category,
            confidence: self.confidence,
            source: self.source.clone(),
            embedding,
            metadata: self.metadata.duplicate(),
            created_at: self.created_at,
            updated_at: self.updated_at,
            usage_count: self.usage_count,
            related_concepts,
        }
    }

    /// The usage count after one more use: it stops at the largest count.
    pub open spec fn next_usage(count: u32) -> u32 {
        if count < u32::MAX {
            (count + 1) as u32
        } else {
            count
        }
    }

    /// Counts one use at the instant `now`.
    pub fn increment_usage_at(&mut self, now: i64)
        ensures
            final(self)@ == (ConceptView {
                usage_count: Self::next_usage(old(self)@.usage_count),
                updated_at: now,
                ..old(self)@
            }),
    {
        if self.usage_count < u32::MAX {
            self.usage_count = self.usage_count + 1;
        }
        self.updated_at = now;
    }

    /// Counts one use, now.
    pub fn increment_usage(&mut self)
        ensures
            final(self)@ == (ConceptView {
                usage_count: Self::next_usage(old(self)@.usage_count),
                updated_at: final(self)@.updated_at,
                ..old(self)@
            }),
    {
        let instant = now();
        self.increment_usage_at(instant);
    }

    /// Moves the confidence by `delta` at the instant `now`, holding it within
    /// nothing and one.
    pub fn update_confidence_at(&mut self, delta: i64, now: i64)
        requires
            old(self).wf(),
        ensures
            final(self).wf(),
            final(self)@ == (ConceptView {
                confidence: clamp_unit_spec(old(self)@.confidence + delta) as i64,
                updated_at: now,
                ..old(self)@
            }),
    {
        let moved: i128 = self.confidence as i128 + delta as i128;
        self.confidence = if moved < 0 {
            0
        } else if moved > UNIT as i128 {
            UNIT
        } else {
            moved as i64
        };
        self.updated_at = now;
    }

    /// Moves the confidence by `delta`, now.
    pub fn update_confidence(&mut self, delta: i64)
        requires
            old(self).wf(),
        ensures
            final(self).wf(),
            final(self)@ == (ConceptView {
                confidence: clamp_unit_spec(old(self)@.confidence + delta) as i64,
                updated_at: final(self)@.updated_at,
                ..old(self)@
            }),
    {
        let instant = now();
        self.update_confidence_at(delta, instant);
    }

    /// Whole decay periods since the last update, seen from `now`.
    fn periods_idle(&self, now: i64) -> (periods: u64)
        ensures
            periods == self@.periods_idle(now),
    {
        let config = self.category.get_decay_config();
        days_between(self.updated_at, now) / (config.period_days as u64)
    }

    /// Applies the decay due at the instant `now` and says whether the concept
    /// is still worth keeping.
    pub fn apply_temporal_decay_at(&mut self, now: i64) -> (keep: bool)
        requires
            old(self).wf(),
        ensures
            final(self).wf(),
            final(self)@ == old(self)@.after_decay(now),
            keep == old(self)@.survives_decay(now),
    {
        let config = self.category.get_decay_config();
        let days = days_between(self.updated_at, now);
        if days < config.period_days as u64 {
            return true;
        }
        let periods = self.periods_idle(now);
        self.confidence = decay(self.confidence, config.decay_rate, periods);
        self.updated_at = now;
        self.confidence >= config.min_confidence
    }

    /// Applies the decay due now.
    pub fn apply_temporal_decay(&mut self) -> (keep: bool)
        requires
            old(self).wf(),
        ensures
            final(self).wf(),
            exists|now: i64|
                final(self)@ == #[trigger] old(self)@.after_decay(now) && keep == old(
                    self,
                )@.survives_decay(now),
    {
        let instant = now();
        self.apply_temporal_decay_at(instant)
    }

    /// The confidence as it counts at the instant `now`, leaving the concept
    /// as it is.
    pub fn effective_confidence_at(&self, now: i64) -> (confidence: i64)
        requires
            self.wf(),
        ensures
            confidence == self@.effective_confidence(now),
    {
        let config = self.category.get_decay_config();
        let days = days_between(self.updated_at, now);
        if days < config.period_days as u64 {
            return self.confidence;
        }
        let periods = self.periods_idle(now);
        let decayed = decay(self.confidence, config.decay_rate, periods);
        if decayed < config.min_confidence {
            config.min_confidence
        } else {
            decayed
        }
    }

    /// The confidence as it counts now.
    pub fn get_effective_confidence(&self) -> (confidence: i64)
        requires
            self.wf(),
        ensures
            0 <= confidence <= UNIT,
            exists|now: i64| confidence == #[trigger] self@.effective_confidence(now),
    {
        let instant = now();
        proof {
            lemma_effective_confidence_bounds(self@, instant);
        }
        self.effective_confidence_at(instant)
    }
}

/// An effective confidence is a confidence: it lies between nothing and one.
pub proof fn lemma_effective_confidence_bounds(concept: ConceptView, now: i64)
    requires
        concept.wf(),
    ensures
        0 <= concept.effective_confidence(now) <= UNIT,
{
    let config = concept.category.decay_config_spec();
    if concept.periods_idle(now) >= 0 {
        lemma_decay_bounds(
            concept.confidence as int,
            config.decay_rate as int,
            concept.periods_idle(now) as nat,
        );
    }
    assert(concept.days_idle(now) >= 0);
    assert(concept.periods_idle(now) >= 0) by (nonlinear_arith)
        requires
            concept.days_idle(now) >= 0,
            concept.periods_idle(now) == concept.days_idle(now) / (config.period_days as int),
            config.period_days > 0,
    ;
}

/// For a concept that has not been updated for a whole decay period or more,
/// the effective confidence never rises as time goes on, and it never falls
/// below the floor of the concept's category.
pub proof fn lemma_effective_confidence_fades(concept: ConceptView, earlier: i64, later: i64)
    requires
        concept.wf(),
        earlier <= later,
        concept.days_idle(earlier) >= concept.category.decay_config_spec().period_days,
    ensures
        concept.effective_confidence(later) <= concept.effective_confidence(earlier),
        concept.effective_confidence(later) >= concept.category.decay_config_spec().min_confidence,
        concept.effective_confidence(earlier) >= concept.category.decay_config_spec().min_confidence,
{
    let config = concept.category.decay_config_spec();
    let period = config.period_days as int;
    let days_earlier = concept.days_idle(earlier);
    let days_later = concept.days_idle(later);
    assert(days_earlier <= days_later) by (nonlinear_arith)
        requires
            earlier <= later,
            days_earlier == days_between_spec(concept.updated_at, earlier),
            days_later == days_between_spec(concept.updated_at, later),
            days_earlier >= 1,
    {
        assert(concept.updated_at < earlier);
        assert((earlier - concept.updated_at) / 86_400_000 <= (later - concept.updated_at)
            / 86_400_000);
    }
    assert(0 <= days_earlier / period <= days_later / period) by (nonlinear_arith)
        requires
            0 <= days_earlier <= days_later,
            period > 0,
    ;
    lemma_decay_monotone_times(
        concept.confidence as int,
        config.decay_rate as int,
        (days_earlier / period) as nat,
        (days_later / period) as nat,
    );
}

} // verus!
