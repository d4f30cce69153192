//! Version data models.
use vstd::prelude::*;
use crate::ext::{now_compact_timestamp, now_rfc3339};
use crate::text::{concat, owned};

verus! {

/// No two entries carry the same key.
pub open spec fn distinct_keys<V>(entries: Seq<(String, V)>) -> bool {
    forall|i: int, j: int| 0 <= i < j < entries.len() ==> entries[i].0@ != entries[j].0@
}

/// Extracted versions from a repository. Components are keyed by their path;
/// no key occurs twice (`wf`).
pub struct VersionReport {
    pub extracted_at: String,
    pub source_path: String,
    pub components: Vec<(String, ComponentVersions)>,
}

impl VersionReport {
    /// Its components are keyed by distinct paths.
    pub open spec fn wf(self) -> bool {
        distinct_keys(self.components@)
    }

    /// A report for `source_path` with no components, stamped with the
    /// current time.
    pub fn new(source_path: &str) -> (r: Self)
        ensures
            r.source_path@ == source_path@,
            r.components@.len() == 0,
            r.wf(),
    {
        VersionReport {
            extracted_at: now_rfc3339(),
            source_path: owned(source_path),
            components: Vec::new(),
        }
    }
}

/// Versions for a single component.
pub struct ComponentVersions {
    pub path: String,
    pub helm_charts: Vec<HelmChartVersion>,
    pub container_images: Vec<ContainerImageVersion>,
}

/// Helm chart version information.
pub struct HelmChartVersion {
    pub name: String,
    pub version: String,
    pub repository: Option<String>,
    pub source_file: String,
}

/// Container image version information.
pub struct ContainerImageVersion {
    pub name: String,
    pub tag: String,
    pub source_file: String,
    pub json_path: String,
}

/// What a chart record says, as texts.
pub struct ChartView {
    pub name: Seq<char>,
    pub version: Seq<char>,
    pub repository: Option<Seq<char>>,
    pub source_file: Seq<char>,
}

/// What an image record says, as texts.
pub struct ImageView {
    pub name: Seq<char>,
    pub tag: Seq<char>,
    pub source_file: Seq<char>,
    pub json_path: Seq<char>,
}

/// What a component's versions say, as texts.
pub struct ComponentView {
    pub path: Seq<char>,
    pub helm_charts: Seq<ChartView>,
    pub container_images: Seq<ImageView>,
}

impl View for HelmChartVersion {
    type V = ChartView;

    open spec fn view(&self) -> ChartView {
        ChartView {
            name: self.name@,
            version: self.version@,
            repository: match self.repository {
                Some(r) => Some(r@),
                None => None,
            },
            source_file: self.source_file@,
        }
    }
}

impl DeepView for HelmChartVersion {
    type V = ChartView;

    open spec fn deep_view(&self) -> ChartView {
        self@
    }
}

impl View for ContainerImageVersion {
    type V = ImageView;

    open spec fn view(&self) -> ImageView {
        ImageView {
            name: self.name@,
            tag: self.tag@,
            source_file: self.source_file@,
            json_path: self.json_path@,
        }
    }
}

impl DeepView for ContainerImageVersion {
    type V = ImageView;

    open spec fn deep_view(&self) -> ImageView {
        self@
    }
}

impl View for ComponentVersions {
    type V = ComponentView;

    open spec fn view(&self) -> ComponentView {
        ComponentView {
            path: self.path@,
            helm_charts: self.helm_charts.deep_view(),
            container_images: self.container_images.deep_view(),
        }
    }
}

impl DeepView for ComponentVersions {
    type V = ComponentView;

    open spec fn deep_view(&self) -> ComponentView {
        self@
    }
}

impl HelmChartVersion {
    /// A copy with the same texts.
    pub fn copy(&self) -> (r: Self)
        ensures
            r@ == self@,
    {
        HelmChartVersion {
            name: self.name.clone(),
            version: self.version.clone(),
            repository: match &self.repository {
                Some(r) => Some(r.clone()),
                None => None,
            },
            source_file: self.source_file.clone(),
        }
    }
}

impl ContainerImageVersion {
    /// A copy with the same texts.
    pub fn copy(&self) -> (r: Self)
        ensures
            r@ == self@,
    {
        ContainerImageVersion {
            name: self.name.clone(),
            tag: self.tag.clone(),
            source_file: self.source_file.clone(),
            json_path: self.json_path.clone(),
        }
    }
}

impl ComponentVersions {
    /// A component at `path` with no versions.
    pub fn empty(path: &str) -> (r: Self)
        ensures
            r@.path == path@,
            r@.helm_charts.len() == 0,
            r@.container_images.len() == 0,
    {
        ComponentVersions { path: owned(path), helm_charts: Vec::new(), container_images: Vec::new() }
    }

    /// A copy with the same texts.
    pub fn copy(&self) -> (r: Self)
        ensures
            r@ == self@,
    {
        let mut charts: Vec<HelmChartVersion> = Vec::new();
        let mut i: usize = 0;
        while i < self.helm_charts.len()
            invariant
                i <= self.helm_charts@.len(),
                charts.deep_view() == self.helm_charts.deep_view().take(i as int),
            decreases self.helm_charts@.len() - i,
        {
            let c = self.helm_charts[i].copy();
            let ghost prev = charts@;
            charts.push(c);
            proof {
                lemma_deep_view_push(prev, charts@, c);
            }
            i += 1;
            assert(charts.deep_view() =~= self.helm_charts.deep_view().take(i as int));
        }
        let mut images: Vec<ContainerImageVersion> = Vec::new();
        let mut j: usize = 0;
        while j < self.container_images.len()
            invariant
                j <= self.container_images@.len(),
                images.deep_view() == self.container_images.deep_view().take(j as int),
            decreases self.container_images@.len() - j,
        {
            let c = self.container_images[j].copy();
            let ghost prev = images@;
            images.push(c);
            proof {
                lemma_deep_view_push(prev, images@, c);
            }
            j += 1;
            assert(images.deep_view() =~= self.container_images.deep_view().take(j as int));
        }
        assert(self.helm_charts.deep_view().take(i as int) =~= self.helm_charts.deep_view());
        assert(self.container_images.deep_view().take(j as int)
            =~= self.container_images.deep_view());
        ComponentVersions { path: self.path.clone(), helm_charts: charts, container_images: images }
    }
}

/// The deep view of a vector grown by one element.
pub proof fn lemma_deep_view_push<T: DeepView>(old: Seq<T>, new: Seq<T>, x: T)
    requires
        new == old.push(x),
    ensures
        Seq::new(new.len(), |i: int| new[i].deep_view()) == Seq::new(
            old.len(),
            |i: int| old[i].deep_view(),
        ).push(x.deep_view()),
{
    assert(Seq::new(new.len(), |i: int| new[i].deep_view()) =~= Seq::new(
        old.len(),
        |i: int| old[i].deep_view(),
    ).push(x.deep_view()));
}

/// Options for version apply operation.
pub struct ApplyOptions {
    pub components: Vec<String>,
    pub dry_run: bool,
    pub check_conflicts: bool,
    pub create_snapshot: bool,
}

/// Result of version apply operation; files are paths as texts.
pub struct ApplyResult {
    pub updated_files: Vec<String>,
    pub skipped_files: Vec<String>,
    pub conflicts: Vec<Conflict>,
    pub snapshot_id: Option<String>,
    pub version_changes: Vec<VersionChangeSummary>,
}

/// Conflict detected during version apply.
pub struct Conflict {
    pub component: String,
    pub file: String,
    pub kind: ConflictKind,
    pub details: String,
}

/// Type of conflict.
pub enum ConflictKind {
    VersionDowngrade { chart_name: String, from: String, to: String },
    ImageDowngrade { image_name: String, from: String, to: String },
    RepositoryChange { chart_name: String, from_repo: String, to_repo: String },
    RegistryChange { image_name: String, from_registry: String, to_registry: String },
    MissingInDest,
    MissingInSource,
}

/// What a conflict kind says, as texts.
pub enum ConflictKindView {
    VersionDowngrade { chart_name: Seq<char>, from: Seq<char>, to: Seq<char> },
    ImageDowngrade { image_name: Seq<char>, from: Seq<char>, to: Seq<char> },
    RepositoryChange { chart_name: Seq<char>, from_repo: Seq<char>, to_repo: Seq<char> },
    RegistryChange { image_name: Seq<char>, from_registry: Seq<char>, to_registry: Seq<char> },
    MissingInDest,
    MissingInSource,
}

/// What a conflict says, as texts.
pub struct ConflictView {
    pub component: Seq<char>,
    pub file: Seq<char>,
    pub kind: ConflictKindView,
    pub details: Seq<char>,
}

impl View for ConflictKind {
    type V = ConflictKindView;

    open spec fn view(&self) -> ConflictKindView {
        match self {
            ConflictKind::VersionDowngrade { chart_name, from, to } => ConflictKindView::VersionDowngrade {
                chart_name: chart_name@,
                from: from@,
                to: to@,
            },
            ConflictKind::ImageDowngrade { image_name, from, to } => ConflictKindView::ImageDowngrade {
                image_name: image_name@,
                from: from@,
                to: to@,
            },
            ConflictKind::RepositoryChange { chart_name, from_repo, to_repo } => ConflictKindView::RepositoryChange {
                chart_name: chart_name@,
                from_repo: from_repo@,
                to_repo: to_repo@,
            },
            ConflictKind::RegistryChange { image_name, from_registry, to_registry } => ConflictKindView::RegistryChange {
                image_name: image_name@,
                from_registry: from_registry@,
                to_registry: to_registry@,
            },
            ConflictKind::MissingInDest => ConflictKindView::MissingInDest,
            ConflictKind::MissingInSource => ConflictKindView::MissingInSource,
        }
    }
}

impl View for Conflict {
    type V = ConflictView;

    open spec fn view(&self) -> ConflictView {
        ConflictView {
            component: self.component@,
            file: self.file@,
            kind: self.kind@,
            details: self.details@,
        }
    }
}

impl DeepView for Conflict {
    type V = ConflictView;

    open spec fn deep_view(&self) -> ConflictView {
        self@
    }
}

impl ConflictKind {
    /// A copy with the same texts.
    pub fn copy(&self) -> (r: Self)
        ensures
            r@ == self@,
    {
        match self {
            ConflictKind::VersionDowngrade { chart_name, from, to } => ConflictKind::VersionDowngrade {
                chart_name: chart_name.clone(),
                from: from.clone(),
                to: to.clone(),
            },
            ConflictKind::ImageDowngrade { image_name, from, to } => ConflictKind::ImageDowngrade {
                image_name: image_name.clone(),
                from: from.clone(),
                to: to.clone(),
            },
            ConflictKind::RepositoryChange { chart_name, from_repo, to_repo } => ConflictKind::RepositoryChange {
                chart_name: chart_name.clone(),
                from_repo: from_repo.clone(),
                to_repo: to_repo.clone(),
            },
            ConflictKind::RegistryChange { image_name, from_registry, to_registry } => ConflictKind::RegistryChange {
                image_name: image_name.clone(),
                from_registry: from_registry.clone(),
                to_registry: to_registry.clone(),
            },
            ConflictKind::MissingInDest => ConflictKind::MissingInDest,
            ConflictKind::MissingInSource => ConflictKind::MissingInSource,
        }
    }
}

impl Conflict {
    /// A copy with the same texts.
    pub fn copy(&self) -> (r: Self)
        ensures
            r@ == self@,
    {
        Conflict {
            component: self.component.clone(),
            file: self.file.clone(),
            kind: self.kind.copy(),
            details: self.details.clone(),
        }
    }

    /// Whether the conflict is a change of chart repository or image registry.
    pub fn is_source_change(&self) -> (r: bool)
        ensures
            r == (self.kind@ is RepositoryChange || self.kind@ is RegistryChange),
    {
        match &self.kind {
            ConflictKind::RepositoryChange { .. } | ConflictKind::RegistryChange { .. } => true,
            _ => false,
        }
    }
}

/// Snapshot file containing all snapshots for a destination.
pub struct SnapshotFile {
    pub version: u32,
    pub snapshots: Vec<Snapshot>,
}

impl SnapshotFile {
    /// An empty snapshot file of format version 1.
    pub fn default() -> (r: Self)
        ensures
            r.version == 1,
            r.snapshots@.len() == 0,
    {
        SnapshotFile { version: 1, snapshots: Vec::new() }
    }
}

/// A single promotion snapshot. `version_changes` is keyed by component.
pub struct Snapshot {
    pub id: String,
    pub created_at: String,
    pub source_path: String,
    pub dest_path: String,
    pub filters: Vec<String>,
    pub version_changes: Vec<(String, Vec<FileVersionChange>)>,
    pub files_modified: Vec<String>,
    pub status: SnapshotStatus,
}

impl Snapshot {
    /// A new applied snapshot whose id is `snap-` followed by the current
    /// time, with no recorded changes.
    pub fn new(source_path: String, dest_path: String, filters: Vec<String>) -> (r: Self)
        ensures
            r.source_path == source_path,
            r.dest_path == dest_path,
            r.filters == filters,
            r.version_changes@.len() == 0,
            r.files_modified@.len() == 0,
            r.status == SnapshotStatus::Applied,
            exists|stamp: Seq<char>| r.id@ == "snap-"@ + stamp,
    {
        let timestamp = now_compact_timestamp();
        let id = concat("snap-", timestamp.as_str());
        Snapshot {
            id,
            created_at: now_rfc3339(),
            source_path,
            dest_path,
            filters,
            version_changes: Vec::new(),
            files_modified: Vec::new(),
            status: SnapshotStatus::Applied,
        }
    }
}

/// File version change record.
pub struct FileVersionChange {
    pub file: String,
    pub kind: VersionChangeKind,
    pub name: String,
    pub before: String,
    pub after: String,
}

/// What a file version change says, as texts.
pub struct FileVersionChangeView {
    pub file: Seq<char>,
    pub kind: VersionChangeKind,
    pub name: Seq<char>,
    pub before: Seq<char>,
    pub after: Seq<char>,
}

impl View for FileVersionChange {
    type V = FileVersionChangeView;

    open spec fn view(&self) -> FileVersionChangeView {
        FileVersionChangeView {
            file: self.file@,
            kind: self.kind,
            name: self.name@,
            before: self.before@,
            after: self.after@,
        }
    }
}

impl DeepView for FileVersionChange {
    type V = FileVersionChangeView;

    open spec fn deep_view(&self) -> FileVersionChangeView {
        self@
    }
}

/// A version change together with its component, for reporting.
pub struct VersionChangeSummary {
    pub component: String,
    pub file: String,
    pub kind: VersionChangeKind,
    pub name: String,
    pub before: String,
    pub after: String,
}

/// Kind of version change.
#[derive(PartialEq, Eq, Structural, Clone, Copy)]
pub enum VersionChangeKind {
    HelmChart,
    ContainerImage,
}

/// Snapshot status.
#[derive(PartialEq, Eq, Structural, Clone, Copy)]
pub enum SnapshotStatus {
    Applied,
    RolledBack,
    Pending,
}

/// Differences in versions of one component.
pub struct VersionDiff {
    pub component: String,
    pub helm_charts: Vec<HelmChartDiff>,
    pub container_images: Vec<ContainerImageDiff>,
}

/// A chart whose version differs between source and destination.
pub struct HelmChartDiff {
    pub name: String,
    pub source_version: String,
    pub dest_version: String,
    pub changed: bool,
}

/// An image whose tag differs between source and destination.
pub struct ContainerImageDiff {
    pub name: String,
    pub source_tag: String,
    pub dest_tag: String,
    pub changed: bool,
}

/// Configuration differences between two directories.
pub struct ConfigDiff {
    pub source_path: String,
    pub dest_path: String,
    pub file_diffs: Vec<FileConfigDiff>,
}

/// Differences of one file.
pub struct FileConfigDiff {
    pub relative_path: String,
    pub hunks: Vec<DiffHunk>,
    pub summary: DiffSummary,
}

/// A run of changed lines.
pub struct DiffHunk {
    pub old_start: usize,
    pub new_start: usize,
    pub lines: Vec<DiffLine>,
}

/// One changed line.
pub struct DiffLine {
    pub kind: DiffLineKind,
    pub content: String,
    pub old_line: Option<usize>,
    pub new_line: Option<usize>,
}

/// Kind of a changed line.
#[derive(PartialEq, Eq, Structural, Clone, Copy)]
pub enum DiffLineKind {
    Addition,
    Removal,
    Context,
}

/// Counts of changed lines.
pub struct DiffSummary {
    pub additions: usize,
    pub removals: usize,
    pub modifications: usize,
}

impl DiffSummary {
    /// Whether nothing changed.
    pub fn is_empty(&self) -> (r: bool)
        ensures
            r == (self.additions == 0 && self.removals == 0 && self.modifications == 0),
    {
        self.additions == 0 && self.removals == 0 && self.modifications == 0
    }
}

} // verus!
