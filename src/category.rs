//! The closed enumerations of the question bank: question categories, with
//! their labels in the data's own language, and license classes.

use vstd::prelude::*;
use crate::text::same_text;

verus! {

/// The subject area of a question.
#[derive(Clone, Copy, Debug, PartialEq, Eq, Structural)]
pub enum QuestionCategory {
    Safety,
    TrafficLaws,
    RoadSigns,
    CarKnowledge,
}

/// A vehicle license class that a question applies to.
#[derive(Clone, Copy, Debug, PartialEq, Eq, Structural)]
pub enum LicenseClass {
    C1,
    C,
    D,
    A,
    B,
}

impl QuestionCategory {
    pub const SAFETY_HE: &'static str = "בטיחות";
    pub const TRAFFIC_LAWS_HE: &'static str = "חוקי התנועה";
    pub const CAR_KNOWLEDGE_HE: &'static str = "הכרת הרכב";
    pub const ROAD_SIGNS_HE: &'static str = "תמרורים";

    /// The canonical label of the category.
    pub open spec fn label(self) -> Seq<char> {
        match self {
            QuestionCategory::Safety => "בטיחות"@,
            QuestionCategory::TrafficLaws => "חוקי התנועה"@,
            QuestionCategory::CarKnowledge => "הכרת הרכב"@,
            QuestionCategory::RoadSigns => "תמרורים"@,
        }
    }

    /// The category whose label is `s`, if any.
    pub open spec fn of_label(s: Seq<char>) -> Option<QuestionCategory> {
        if s == QuestionCategory::Safety.label() {
            Some(QuestionCategory::Safety)
        } else if s == QuestionCategory::TrafficLaws.label() {
            Some(QuestionCategory::TrafficLaws)
        } else if s == QuestionCategory::CarKnowledge.label() {
            Some(QuestionCategory::CarKnowledge)
        } else if s == QuestionCategory::RoadSigns.label() {
            Some(QuestionCategory::RoadSigns)
        } else {
            None
        }
    }

    /// Looks a category up by its exact label; any other text gives `None`.
    pub fn from_str_he(str: &str) -> (r: Option<Self>)
        ensures
            r == Self::of_label(str@),
    {
        if same_text(str, Self::SAFETY_HE) {
            Some(QuestionCategory::Safety)
        } else if same_text(str, Self::TRAFFIC_LAWS_HE) {
            Some(QuestionCategory::TrafficLaws)
        } else if same_text(str, Self::CAR_KNOWLEDGE_HE) {
            Some(QuestionCategory::CarKnowledge)
        } else if same_text(str, Self::ROAD_SIGNS_HE) {
            Some(QuestionCategory::RoadSigns)
        } else {
            None
        }
    }

    /// The canonical label of the category.
    pub fn as_str_he(&self) -> (r: &'static str)
        ensures
            r@ == self.label(),
    {
        match self {
            QuestionCategory::Safety => Self::SAFETY_HE,
            QuestionCategory::TrafficLaws => Self::TRAFFIC_LAWS_HE,
            QuestionCategory::CarKnowledge => Self::CAR_KNOWLEDGE_HE,
            QuestionCategory::RoadSigns => Self::ROAD_SIGNS_HE,
        }
    }
}

/// Label round trip: looking up the label of a category gives that category
/// back, so its label is recovered exactly.
pub proof fn lemma_label_round_trip(c: QuestionCategory)
    ensures
        QuestionCategory::of_label(c.label()) == Some(c),
{
    reveal_strlit("בטיחות");
    reveal_strlit("חוקי התנועה");
    reveal_strlit("הכרת הרכב");
    reveal_strlit("תמרורים");
    assert(QuestionCategory::Safety.label().len() == 6);
    assert(QuestionCategory::TrafficLaws.label().len() == 11);
    assert(QuestionCategory::CarKnowledge.label().len() == 9);
    assert(QuestionCategory::RoadSigns.label().len() == 7);
}

/// A text that is none of the four labels maps to no category at all.
pub proof fn lemma_unknown_label(s: Seq<char>)
    requires
        forall|c: QuestionCategory| s != c.label(),
    ensures
        QuestionCategory::of_label(s) is None,
{
    assert(s != QuestionCategory::Safety.label());
    assert(s != QuestionCategory::TrafficLaws.label());
    assert(s != QuestionCategory::CarKnowledge.label());
    assert(s != QuestionCategory::RoadSigns.label());
}

} // verus!
