//! Token records: one ground-truth or result item of a query, carrying its
//! document-position identity, the source document name, an optional
//! transcription and an optional relevance score.
//!
//! Relevance is an exact decimal: `num / 10^places`. This keeps the value a
//! record line carries exactly, digit for digit, which is what makes the
//! parse/serialize round trip hold.

use vstd::prelude::*;

use crate::numerals::pow10;
use crate::numerals::pow10_u64;
use crate::rectangles::Rectangle;

verus! {

/// An exact decimal in `[0, u64::MAX]`: the value `num / 10^places`.
/// `places == 0` means an integer numeral without a decimal point.
#[derive(Debug, Clone, Copy, PartialEq, Eq, Structural)]
pub struct Relevance {
    pub num: u64,
    pub places: u32,
}

/// A relevance value is valid when it lies in (0, 1]: zero or negative
/// relevance is meaningless here and anything above full relevance is a
/// construction-time error.
pub open spec fn relevance_valid(r: Relevance) -> bool {
    r.num >= 1 && r.num <= pow10(r.places as nat)
}

impl Relevance {
    /// Full relevance, the value an absent relevance field stands for.
    pub fn one() -> (r: Relevance)
        ensures
            r == (Relevance { num: 1, places: 0 }),
            relevance_valid(r),
    {
        Relevance { num: 1, places: 0 }
    }

    /// Whether the value lies in (0, 1].
    pub fn is_valid(&self) -> (b: bool)
        ensures
            b == relevance_valid(*self),
    {
        if self.num < 1 {
            return false;
        }
        if self.places >= 20 {
            // 10^20 exceeds u64::MAX, so num < 10^places holds trivially.
            proof {
                crate::numerals::lemma_pow10_increases(20, self.places as nat);
                assert(pow10(20) == 100_000_000_000_000_000_000) by {
                    reveal_with_fuel(pow10, 21);
                }
            }
            return true;
        }
        let p = pow10_u64(self.places);
        self.num <= p
    }
}

/// The identity a record is matched by: either a bare numeric id or a
/// bounding box on a document page.
#[derive(Debug, Clone, Copy)]
pub enum TokenId {
    NumericId(u16),
    BoundingBox(Rectangle),
}

/// One ground-truth or result item of a query.
#[derive(Debug, Clone)]
pub struct RelevantToken {
    pub id: TokenId,
    pub document: Option<String>,
    pub transcription: Option<String>,
    pub relevance: Option<Relevance>,
}

/// The mathematical image of a `RelevantToken`: strings become character
/// sequences.
pub struct TokenModel {
    pub id: TokenId,
    pub document: Option<Seq<char>>,
    pub transcription: Option<Seq<char>>,
    pub relevance: Option<Relevance>,
}

impl View for RelevantToken {
    type V = TokenModel;

    open spec fn view(&self) -> TokenModel {
        TokenModel {
            id: self.id,
            document: self.document.deep_view(),
            transcription: self.transcription.deep_view(),
            relevance: self.relevance,
        }
    }
}

impl DeepView for RelevantToken {
    type V = TokenModel;

    open spec fn deep_view(&self) -> TokenModel {
        self.view()
    }
}

/// A record is well formed when a bounding-box identity carries a
/// well-formed rectangle and a relevance score, if present, is valid.
pub open spec fn token_model_wf(m: TokenModel) -> bool {
    &&& (m.id matches TokenId::BoundingBox(r) ==> crate::rectangles::rect_wf(r))
    &&& (m.relevance matches Some(v) ==> relevance_valid(v))
}

impl RelevantToken {
    /// A fresh record: numeric id zero, no document, no transcription, no
    /// relevance.
    pub fn new() -> (t: RelevantToken)
        ensures
            t@ == (TokenModel {
                id: TokenId::NumericId(0),
                document: None::<Seq<char>>,
                transcription: None::<Seq<char>>,
                relevance: None::<Relevance>,
            }),
    {
        RelevantToken {
            id: TokenId::NumericId(0),
            document: None,
            relevance: None,
            transcription: None,
        }
    }

    /// Replace the identity.
    pub fn set_tokenid(&mut self, i: TokenId)
        ensures
            final(self).id == i,
            final(self).document == old(self).document,
            final(self).transcription == old(self).transcription,
            final(self).relevance == old(self).relevance,
    {
        self.id = i;
    }

    /// Attach the source document name.
    pub fn set_document(&mut self, d: String)
        ensures
            final(self).document == Some(d),
            final(self).id == old(self).id,
            final(self).transcription == old(self).transcription,
            final(self).relevance == old(self).relevance,
    {
        self.document = Some(d);
    }

    /// Attach the transcription text.
    pub fn set_transcription(&mut self, d: String)
        ensures
            final(self).transcription == Some(d),
            final(self).id == old(self).id,
            final(self).document == old(self).document,
            final(self).relevance == old(self).relevance,
    {
        self.transcription = Some(d);
    }

    /// Attach a relevance score; the value must lie in (0, 1].
    pub fn set_relevance(&mut self, r: Relevance)
        requires
            relevance_valid(r),
        ensures
            final(self).relevance == Some(r),
            final(self).id == old(self).id,
            final(self).document == old(self).document,
            final(self).transcription == old(self).transcription,
    {
        self.relevance = Some(r);
    }

    /// The relevance score, with an absent field read as full relevance.
    pub fn get_relevance(&self) -> (r: Relevance)
        ensures
            r == match self.relevance {
                Some(v) => v,
                None => Relevance { num: 1, places: 0 },
            },
    {
        match self.relevance {
            Some(v) => v,
            None => Relevance { num: 1, places: 0 },
        }
    }
}

} // verus!
