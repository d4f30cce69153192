//! Review artifact models.
use vstd::prelude::*;
use crate::text::views;

verus! {

/// Where a review artifact stands.
#[derive(PartialEq, Eq, Structural, Clone, Copy)]
pub enum ReviewArtifactStatus {
    Pending,
    Classified,
    Applied,
}

/// Why a file was left for review.
#[derive(PartialEq, Eq, Structural, Clone, Copy)]
pub enum ReviewItemKind {
    NewComponent,
    ConflictingFile,
    RuleReview,
}

/// The decision taken on an item.
#[derive(PartialEq, Eq, Structural, Clone, Copy)]
pub enum ReviewDecision {
    Promote,
    Skip,
}

/// Counts of an analysis.
pub struct ReviewSummary {
    pub auto_files: usize,
    pub retained_files: usize,
    pub review_items: usize,
    pub new_components: usize,
    pub conflicting_files: usize,
}

/// A group of files of one component left for review.
pub struct ReviewItem {
    pub id: String,
    pub kind: ReviewItemKind,
    pub component: String,
    pub files: Vec<String>,
    pub candidate_sources: Vec<String>,
    pub reason: String,
    pub decision: Option<ReviewDecision>,
    pub selected_source: Option<String>,
    pub notes: Option<String>,
}

/// A review item, as texts.
pub struct ReviewItemView {
    pub id: Seq<char>,
    pub kind: ReviewItemKind,
    pub component: Seq<char>,
    pub files: Seq<Seq<char>>,
    pub candidate_sources: Seq<Seq<char>>,
    pub reason: Seq<char>,
    pub decision: Option<ReviewDecision>,
    pub selected_source: Option<Seq<char>>,
    pub notes: Option<Seq<char>>,
}

/// The texts of an optional string.
pub open spec fn opt_view(o: Option<String>) -> Option<Seq<char>> {
    match o {
        Some(s) => Some(s@),
        None => None,
    }
}

impl View for ReviewItem {
    type V = ReviewItemView;

    open spec fn view(&self) -> ReviewItemView {
        ReviewItemView {
            id: self.id@,
            kind: self.kind,
            component: self.component@,
            files: views(self.files@),
            candidate_sources: views(self.candidate_sources@),
            reason: self.reason@,
            decision: self.decision,
            selected_source: opt_view(self.selected_source),
            notes: opt_view(self.notes),
        }
    }
}

impl DeepView for ReviewItem {
    type V = ReviewItemView;

    open spec fn deep_view(&self) -> ReviewItemView {
        self@
    }
}

/// The review state of one promotion route.
pub struct ReviewArtifact {
    pub version: u32,
    pub id: String,
    pub created_at: String,
    pub updated_at: String,
    pub status: ReviewArtifactStatus,
    pub sources: Vec<String>,
    pub dest: String,
    pub filters: Vec<String>,
    pub route_key: String,
    pub fingerprint: String,
    pub summary: ReviewSummary,
    pub items: Vec<ReviewItem>,
}

/// The name of a kind, as `Debug` prints it.
pub open spec fn kind_name(kind: ReviewItemKind) -> Seq<char> {
    match kind {
        ReviewItemKind::NewComponent => "NewComponent"@,
        ReviewItemKind::ConflictingFile => "ConflictingFile"@,
        ReviewItemKind::RuleReview => "RuleReview"@,
    }
}

impl ReviewItemKind {
    /// The name of the kind, as `Debug` prints it.
    pub fn name(&self) -> (r: &'static str)
        ensures
            r@ == kind_name(*self),
    {
        match self {
            ReviewItemKind::NewComponent => "NewComponent",
            ReviewItemKind::ConflictingFile => "ConflictingFile",
            ReviewItemKind::RuleReview => "RuleReview",
        }
    }
}

/// Copies of the strings of `v`.
pub fn copy_strings(v: &Vec<String>) -> (r: Vec<String>)
    ensures
        r@ == v@,
{
    let mut r: Vec<String> = Vec::new();
    let mut i: usize = 0;
    while i < v.len()
        invariant
            i <= v@.len(),
            r@ == v@.take(i as int),
        decreases v@.len() - i,
    {
        r.push(v[i].clone());
        i += 1;
        assert(r@ =~= v@.take(i as int));
    }
    assert(v@.take(i as int) =~= v@);
    r
}

/// A copy of an optional string.
pub fn copy_opt(o: &Option<String>) -> (r: Option<String>)
    ensures
        r == *o,
{
    match o {
        Some(s) => Some(s.clone()),
        None => None,
    }
}

impl ReviewItem {
    /// A copy with the same texts.
    pub fn copy(&self) -> (r: Self)
        ensures
            r@ == self@,
    {
        ReviewItem {
            id: self.id.clone(),
            kind: self.kind,
            component: self.component.clone(),
            files: copy_strings(&self.files),
            candidate_sources: copy_strings(&self.candidate_sources),
            reason: self.reason.clone(),
            decision: self.decision,
            selected_source: copy_opt(&self.selected_source),
            notes: copy_opt(&self.notes),
        }
    }
}

} // verus!
