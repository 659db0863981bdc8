use vstd::prelude::*;
use crate::strutil::{lex_le, lemma_lex_le_total, lemma_lex_le_antisymmetric,
    lemma_lex_le_transitive, str_eq, str_le};
use vstd::relations::total_ordering;

verus! {

/// One observation from a camera-trap deployment: a media resource's path,
/// the deployment (site) it came from, the analysed tag (species name or
/// individual identifier), and the naive timestamp in whole seconds.
#[derive(Debug)]
pub struct Observation {
    pub path: String,
    pub deployment: String,
    pub tag: String,
    pub time: i64,
}

/// Mathematical model of an `Observation`.
pub ghost struct ObsV {
    pub path: Seq<char>,
    pub deployment: Seq<char>,
    pub tag: Seq<char>,
    pub time: int,
}

impl View for Observation {
    type V = ObsV;

    open spec fn view(&self) -> ObsV {
        ObsV {
            path: self.path@,
            deployment: self.deployment@,
            tag: self.tag@,
            time: self.time as int,
        }
    }
}

impl Observation {
    /// Copies an observation.
    pub fn duplicate(&self) -> (r: Observation)
        ensures
            r@ == self@,
    {
        Observation {
            path: self.path.clone(),
            deployment: self.deployment.clone(),
            tag: self.tag.clone(),
            time: self.time,
        }
    }
}

/// The views of a sequence of observations.
pub open spec fn obs_views(s: Seq<Observation>) -> Seq<ObsV> {
    s.map_values(|o: Observation| o@)
}

/// A record as handed in by the surrounding table reader. `deployment`,
/// `tag` and `time` may be missing (null); `time`, when present, is a naive
/// timestamp written `yyyy-MM-dd HH:mm:ss`.
#[derive(Debug)]
pub struct RawRecord {
    pub path: String,
    pub deployment: Option<String>,
    pub tag: Option<String>,
    pub time: Option<String>,
}

/// Mathematical model of a `RawRecord`.
pub ghost struct RawV {
    pub path: Seq<char>,
    pub deployment: Option<Seq<char>>,
    pub tag: Option<Seq<char>>,
    pub time: Option<Seq<char>>,
}

impl View for RawRecord {
    type V = RawV;

    open spec fn view(&self) -> RawV {
        RawV {
            path: self.path@,
            deployment: match self.deployment {
                Some(d) => Some(d@),
                None => None,
            },
            tag: match self.tag {
                Some(t) => Some(t@),
                None => None,
            },
            time: match self.time {
                Some(t) => Some(t@),
                None => None,
            },
        }
    }
}

/// The views of a sequence of raw records.
pub open spec fn raw_views(s: Seq<RawRecord>) -> Seq<RawV> {
    s.map_values(|r: RawRecord| r@)
}

/// A raw record whose timestamp has been resolved to seconds; the other
/// fields may still be missing.
pub ghost struct TimedV {
    pub path: Seq<char>,
    pub deployment: Option<Seq<char>>,
    pub tag: Option<Seq<char>>,
    pub time: Option<int>,
}

/// The kind of tag a record carries and which column it is read from.
#[derive(Clone, Copy, Debug, PartialEq, Eq, Structural)]
pub enum TagType {
    Species,
    Individual,
    Count,
    Sex,
    Bodypart,
}

impl TagType {
    /// The tabular column name for this tag kind.
    pub fn col_name(self) -> (r: &'static str)
        ensures
            self == TagType::Individual ==> r@ == "individual"@,
            self == TagType::Species ==> r@ == "species"@,
            self == TagType::Count ==> r@ == "count"@,
            self == TagType::Sex ==> r@ == "sex"@,
            self == TagType::Bodypart ==> r@ == "bodypart"@,
    {
        match self {
            TagType::Individual => "individual",
            TagType::Species => "species",
            TagType::Count => "count",
            TagType::Sex => "sex",
            TagType::Bodypart => "bodypart",
        }
    }

    /// The digiKam tag-list prefix for this tag kind.
    pub fn digikam_tag_prefix(self) -> (r: &'static str)
        ensures
            self == TagType::Individual ==> r@ == "Individual/"@,
            self == TagType::Species ==> r@ == "Species/"@,
            self == TagType::Count ==> r@ == "Count/"@,
            self == TagType::Sex ==> r@ == "Sex/"@,
            self == TagType::Bodypart ==> r@ == "Bodypart/"@,
    {
        match self {
            TagType::Individual => "Individual/",
            TagType::Species => "Species/",
            TagType::Count => "Count/",
            TagType::Sex => "Sex/",
            TagType::Bodypart => "Bodypart/",
        }
    }

    /// The Adobe hierarchical-subject prefix for this tag kind.
    pub fn adobe_tag_prefix(self) -> (r: &'static str)
        ensures
            self == TagType::Individual ==> r@ == "Individual|"@,
            self == TagType::Species ==> r@ == "Species|"@,
            self == TagType::Count ==> r@ == "Count|"@,
            self == TagType::Sex ==> r@ == "Sex|"@,
            self == TagType::Bodypart ==> r@ == "Bodypart|"@,
    {
        match self {
            TagType::Individual => "Individual|",
            TagType::Species => "Species|",
            TagType::Count => "Count|",
            TagType::Sex => "Sex|",
            TagType::Bodypart => "Bodypart|",
        }
    }
}

/// How the minimum time difference is compared when deciding independence.
#[derive(Clone, Copy, Debug, PartialEq, Eq, Structural)]
pub enum Policy {
    /// Compare against the last record marked independent.
    LastIndependentRecord,
    /// Compare against every record in a fixed trailing window.
    LastRecord,
}

impl Policy {
    /// The short label used in output file names.
    pub fn abbrev(self) -> (r: &'static str)
        ensures
            self == Policy::LastIndependentRecord ==> r@ == "LIR"@,
            self == Policy::LastRecord ==> r@ == "LR"@,
    {
        match self {
            Policy::LastIndependentRecord => "LIR",
            Policy::LastRecord => "LR",
        }
    }
}

/// Two observations belong to the same analysis group when deployment and
/// tag agree.
pub open spec fn same_group(a: ObsV, b: ObsV) -> bool {
    a.deployment == b.deployment && a.tag == b.tag
}

/// The analysis key: two observations are duplicates when deployment, time
/// and tag all agree (the path is not part of the key).
pub open spec fn same_triple(a: ObsV, b: ObsV) -> bool {
    a.deployment == b.deployment && a.time == b.time && a.tag == b.tag
}

/// The canonical record order: by deployment, then tag, then time, then
/// path, so that records sharing (deployment, tag) are contiguous and
/// ordered by ascending time.
pub open spec fn canonical_le(a: ObsV, b: ObsV) -> bool {
    if a.deployment != b.deployment {
        lex_le(a.deployment, b.deployment)
    } else if a.tag != b.tag {
        lex_le(a.tag, b.tag)
    } else if a.time != b.time {
        a.time <= b.time
    } else {
        lex_le(a.path, b.path)
    }
}

/// The canonical record order is a total ordering.
pub proof fn lemma_canonical_le_total_ordering()
    ensures
        total_ordering(|a: ObsV, b: ObsV| canonical_le(a, b)),
{
    let leq = |a: ObsV, b: ObsV| canonical_le(a, b);
    assert forall|a: ObsV| #[trigger] leq(a, a) by {
        lemma_lex_le_total(a.path, a.path);
    }
    assert forall|a: ObsV, b: ObsV| #[trigger] leq(a, b) && #[trigger] leq(b, a) implies a == b by {
        lemma_canonical_le_antisymmetric(a, b);
    }
    assert forall|a: ObsV, b: ObsV, c: ObsV|
        #[trigger] leq(a, b) && #[trigger] leq(b, c) implies leq(a, c) by {
        lemma_canonical_le_transitive(a, b, c);
    }
    assert forall|a: ObsV, b: ObsV| #[trigger] leq(a, b) || #[trigger] leq(b, a) by {
        lemma_lex_le_total(a.deployment, b.deployment);
        lemma_lex_le_total(a.tag, b.tag);
        lemma_lex_le_total(a.path, b.path);
    }
}

/// The canonical order relates every pair of observations one way or the
/// other.
pub proof fn lemma_canonical_le_connected(a: ObsV, b: ObsV)
    ensures
        canonical_le(a, b) || canonical_le(b, a),
{
    lemma_lex_le_total(a.deployment, b.deployment);
    lemma_lex_le_total(a.tag, b.tag);
    lemma_lex_le_total(a.path, b.path);
}

pub proof fn lemma_canonical_le_antisymmetric(a: ObsV, b: ObsV)
    requires
        canonical_le(a, b),
        canonical_le(b, a),
    ensures
        a == b,
{
    if a.deployment != b.deployment {
        lemma_lex_le_antisymmetric(a.deployment, b.deployment);
    } else if a.tag != b.tag {
        lemma_lex_le_antisymmetric(a.tag, b.tag);
    } else if a.time != b.time {
    } else {
        lemma_lex_le_antisymmetric(a.path, b.path);
    }
}

pub proof fn lemma_canonical_le_transitive(a: ObsV, b: ObsV, c: ObsV)
    requires
        canonical_le(a, b),
        canonical_le(b, c),
    ensures
        canonical_le(a, c),
{
    if a.deployment == b.deployment && b.deployment == c.deployment {
        if a.tag == b.tag && b.tag == c.tag {
            if a.time == b.time && b.time == c.time {
                lemma_lex_le_transitive(a.path, b.path, c.path);
            }
        } else if a.tag == b.tag {
        } else if b.tag == c.tag {
        } else {
            lemma_lex_le_transitive(a.tag, b.tag, c.tag);
            if a.tag == c.tag {
                lemma_lex_le_antisymmetric(a.tag, b.tag);
            }
        }
    } else if a.deployment == b.deployment {
    } else if b.deployment == c.deployment {
    } else {
        lemma_lex_le_transitive(a.deployment, b.deployment, c.deployment);
        if a.deployment == c.deployment {
            lemma_lex_le_antisymmetric(a.deployment, b.deployment);
        }
    }
}

/// Decides the canonical record order between two observations.
pub fn obs_le(a: &Observation, b: &Observation) -> (r: bool)
    ensures
        r == canonical_le(a@, b@),
{
    if !str_eq(&a.deployment, &b.deployment) {
        str_le(&a.deployment, &b.deployment)
    } else if !str_eq(&a.tag, &b.tag) {
        str_le(&a.tag, &b.tag)
    } else if a.time != b.time {
        a.time <= b.time
    } else {
        str_le(&a.path, &b.path)
    }
}

/// Decides whether two observations agree on the analysis key.
pub fn obs_same_triple(a: &Observation, b: &Observation) -> (r: bool)
    ensures
        r == same_triple(a@, b@),
{
    str_eq(&a.deployment, &b.deployment) && a.time == b.time && str_eq(&a.tag, &b.tag)
}

/// Decides whether two observations belong to the same analysis group.
pub fn obs_same_group(a: &Observation, b: &Observation) -> (r: bool)
    ensures
        r == same_group(a@, b@),
{
    str_eq(&a.deployment, &b.deployment) && str_eq(&a.tag, &b.tag)
}

} // verus!
