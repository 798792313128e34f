//! The models that can be loaded and the stems that they separate.
use vstd::prelude::*;
use crate::text;

verus! {

/// Name of the model with four stems.
pub const HTDEMUCS_ID: &'static str = "htdemucs";

/// Name of the model with six stems.
pub const HTDEMUCS_6S_ID: &'static str = "htdemucs_6s";

/// Name of the collection of four models, each tuned for one stem.
pub const HTDEMUCS_FT_ID: &'static str = "htdemucs_ft";

/// A part that a recording is separated into.
#[derive(Clone, Copy, Debug, PartialEq, Eq, Hash, Structural)]
pub enum StemId {
    Drums,
    Bass,
    Other,
    Vocals,
    Guitar,
    Piano,
}

/// The name of a stem.
pub open spec fn stem_text(id: StemId) -> Seq<char> {
    match id {
        StemId::Drums => "drums"@,
        StemId::Bass => "bass"@,
        StemId::Other => "other"@,
        StemId::Vocals => "vocals"@,
        StemId::Guitar => "guitar"@,
        StemId::Piano => "piano"@,
    }
}

/// No two stems have the same name.
pub proof fn stem_names_differ(a: StemId, b: StemId)
    requires
        stem_text(a) == stem_text(b),
    ensures
        a == b,
{
    reveal_strlit("drums");
    reveal_strlit("bass");
    reveal_strlit("other");
    reveal_strlit("vocals");
    reveal_strlit("guitar");
    reveal_strlit("piano");
    let s = stem_text(a);
    let c = (s.len(), s[0]);
    assert("drums"@[0] == 'd' && "other"@[0] == 'o' && "vocals"@[0] == 'v' && "guitar"@[0] == 'g'
        && "piano"@[0] == 'p' && "bass"@[0] == 'b');
}

impl StemId {
    /// The name of the stem.
    pub fn as_str(&self) -> (r: &'static str)
        ensures
            r@ == stem_text(*self),
    {
        match self {
            StemId::Drums => "drums",
            StemId::Bass => "bass",
            StemId::Other => "other",
            StemId::Vocals => "vocals",
            StemId::Guitar => "guitar",
            StemId::Piano => "piano",
        }
    }

    /// The stem with the name `s`.
    pub fn parse(s: &str) -> (r: Option<StemId>)
        ensures
            match r {
                Some(id) => s@ == stem_text(id),
                None => forall|id: StemId| s@ != #[trigger] stem_text(id),
            },
    {
        if text::same(s, "drums") {
            Some(StemId::Drums)
        } else if text::same(s, "bass") {
            Some(StemId::Bass)
        } else if text::same(s, "other") {
            Some(StemId::Other)
        } else if text::same(s, "vocals") {
            Some(StemId::Vocals)
        } else if text::same(s, "guitar") {
            Some(StemId::Guitar)
        } else if text::same(s, "piano") {
            Some(StemId::Piano)
        } else {
            None
        }
    }
}

/// What is known of a model before its weights are loaded: its name, the stems that it
/// gives, in order, and the signatures under which its weights are stored: one for all
/// stems, or one for each.
pub struct ModelInfo {
    pub id: &'static str,
    pub stems: Vec<StemId>,
    pub signatures: Vec<&'static str>,
}

/// The stems of a model with four.
pub open spec fn four_stems() -> Seq<StemId> {
    seq![StemId::Drums, StemId::Bass, StemId::Other, StemId::Vocals]
}

/// The stems of a model with six.
pub open spec fn six_stems() -> Seq<StemId> {
    seq![
        StemId::Drums,
        StemId::Bass,
        StemId::Other,
        StemId::Vocals,
        StemId::Guitar,
        StemId::Piano,
    ]
}

/// No stem is listed twice, and there is one signature for all stems or one for each.
pub open spec fn info_ok(info: &ModelInfo) -> bool {
    &&& info.stems@.no_duplicates()
    &&& info.signatures@.len() == 1 || info.signatures@.len() == info.stems@.len()
    &&& info.stems@.len() == 4 || info.stems@.len() == 6
}

/// `r` describes the model with four stems.
pub open spec fn is_htdemucs(r: &ModelInfo) -> bool {
    &&& r.id@ == "htdemucs"@
    &&& r.stems@ == four_stems()
    &&& r.signatures@.len() == 1
    &&& r.signatures@[0]@ == "955717e8"@
}

/// `r` describes the model with six stems.
pub open spec fn is_htdemucs_6s(r: &ModelInfo) -> bool {
    &&& r.id@ == "htdemucs_6s"@
    &&& r.stems@ == six_stems()
    &&& r.signatures@.len() == 1
    &&& r.signatures@[0]@ == "5c90dfd2"@
}

/// `r` describes the four models that are tuned for drums, bass, the rest and vocals.
pub open spec fn is_htdemucs_ft(r: &ModelInfo) -> bool {
    &&& r.id@ == "htdemucs_ft"@
    &&& r.stems@ == four_stems()
    &&& r.signatures@.len() == 4
    &&& r.signatures@[0]@ == "f7e0c4bc"@
    &&& r.signatures@[1]@ == "d12395a8"@
    &&& r.signatures@[2]@ == "92cfc3b6"@
    &&& r.signatures@[3]@ == "04573f0d"@
}

impl ModelInfo {
    /// The model with four stems.
    pub fn htdemucs() -> (r: ModelInfo)
        ensures
            is_htdemucs(&r),
            info_ok(&r),
    {
        let stems: Vec<StemId> = vec![StemId::Drums, StemId::Bass, StemId::Other, StemId::Vocals];
        let signatures: Vec<&'static str> = vec!["955717e8"];
        assert(stems@ =~= four_stems());
        ModelInfo { id: HTDEMUCS_ID, stems, signatures }
    }

    /// The model with six stems.
    pub fn htdemucs_6s() -> (r: ModelInfo)
        ensures
            is_htdemucs_6s(&r),
            info_ok(&r),
    {
        let stems: Vec<StemId> = vec![
            StemId::Drums,
            StemId::Bass,
            StemId::Other,
            StemId::Vocals,
            StemId::Guitar,
            StemId::Piano,
        ];
        let signatures: Vec<&'static str> = vec!["5c90dfd2"];
        assert(stems@ =~= six_stems());
        ModelInfo { id: HTDEMUCS_6S_ID, stems, signatures }
    }

    /// The collection of four models, each tuned for one stem.
    pub fn htdemucs_ft() -> (r: ModelInfo)
        ensures
            is_htdemucs_ft(&r),
            info_ok(&r),
    {
        let stems: Vec<StemId> = vec![StemId::Drums, StemId::Bass, StemId::Other, StemId::Vocals];
        let signatures: Vec<&'static str> = vec!["f7e0c4bc", "d12395a8", "92cfc3b6", "04573f0d"];
        assert(stems@ =~= four_stems());
        ModelInfo { id: HTDEMUCS_FT_ID, stems, signatures }
    }
}

} // verus!
