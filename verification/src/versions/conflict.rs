//! Conflict detection for version apply operations.
use vstd::prelude::*;
use std::cmp::Ordering;
use crate::config::{PromotionRules, SourceChangeHandling};
use crate::ext::{lowercase, to_lowercase};
use crate::keyed::{lookup, value_of};
use crate::order::{compare_numbers, compare_text, version_numbers, version_order};
use crate::text::{
    cat, cat_views,
    chars_of, contains_char, find_char, is_prefix, lemma_first_index_bounds, owned, slice_eq,
    slice_of, starts_with, string_of, str_eq, trim, trim_end_char, trim_end_matches, trim_white,
    first_index,
};
use crate::versions::models::{
    ChartView, ComponentVersions, ComponentView, Conflict, ConflictKind, ConflictKindView,
    ConflictView, ContainerImageVersion, HelmChartVersion, ImageView, VersionReport,
};

verus! {

// ---------------------------------------------------------------------------
// Repository URLs and image names
// ---------------------------------------------------------------------------

/// `url` without a leading `https://`, `http://` or `oci://` (the first that
/// matches).
pub open spec fn strip_protocol(url: Seq<char>) -> Seq<char> {
    if is_prefix("https://"@, url) {
        url.skip("https://"@.len() as int)
    } else if is_prefix("http://"@, url) {
        url.skip("http://"@.len() as int)
    } else if is_prefix("oci://"@, url) {
        url.skip("oci://"@.len() as int)
    } else {
        url
    }
}

/// A repository URL trimmed of white space, protocol and trailing slashes,
/// in lower case.
pub open spec fn normalized_url(url: Seq<char>) -> Seq<char> {
    lowercase(trim_end_char(strip_protocol(trim_white(url)), '/'))
}

/// `s` looks like a registry host: it has a `.` or `:`, or is `localhost`.
pub open spec fn looks_like_registry(s: Seq<char>) -> bool {
    s.contains('.') || s.contains(':') || s == "localhost"@
}

/// The first path segment of an image name when it looks like a registry.
pub open spec fn explicit_registry(name: Seq<char>) -> Option<Seq<char>> {
    match first_index(name, '/') {
        Some(i) => if looks_like_registry(name.take(i)) {
            Some(name.take(i))
        } else {
            None
        },
        None => None,
    }
}

/// The registry of an image name; `docker.io` when it names none.
pub open spec fn registry_of(name: Seq<char>) -> Seq<char> {
    match explicit_registry(name) {
        Some(r) => r,
        None => "docker.io"@,
    }
}

/// An image name without its registry.
pub open spec fn image_path_of(name: Seq<char>) -> Seq<char> {
    match (explicit_registry(name), first_index(name, '/')) {
        (Some(_), Some(i)) => name.skip(i + 1),
        _ => name,
    }
}

/// Normalize a repository URL for comparison: strips white space, the
/// protocol prefix and trailing slashes, and lower-cases the rest.
pub fn normalize_repository_url(url: &str) -> (r: String)
    ensures
        r@ == normalized_url(url@),
{
    let chars = chars_of(url);
    let t = trim(chars.as_slice());
    let https = chars_of("https://");
    let http = chars_of("http://");
    let oci = chars_of("oci://");
    let stripped = if starts_with(t.as_slice(), https.as_slice()) {
        slice_of(t.as_slice(), https.len(), t.len())
    } else if starts_with(t.as_slice(), http.as_slice()) {
        slice_of(t.as_slice(), http.len(), t.len())
    } else if starts_with(t.as_slice(), oci.as_slice()) {
        slice_of(t.as_slice(), oci.len(), t.len())
    } else {
        t
    };
    assert(stripped@ == strip_protocol(trim_white(url@)));
    let no_slash = trim_end_matches(stripped.as_slice(), '/');
    let s = string_of(no_slash.as_slice());
    to_lowercase(s.as_str())
}

/// Compare repository URLs after normalization.
pub fn repositories_equal(a: &str, b: &str) -> (r: bool)
    ensures
        r == (normalized_url(a@) == normalized_url(b@)),
{
    let x = normalize_repository_url(a);
    let y = normalize_repository_url(b);
    str_eq(x.as_str(), y.as_str())
}

/// Position of the first `/` of `name` when the segment before it looks like
/// a registry.
fn registry_split(name: &str) -> (r: Option<usize>)
    ensures
        match r {
            Some(i) => first_index(name@, '/') == Some(i as int) && i < name@.len()
                && explicit_registry(name@) == Some(name@.take(i as int)),
            None => explicit_registry(name@) is None,
        },
{
    let chars = chars_of(name);
    match find_char(chars.as_slice(), '/') {
        Some(i) => {
            let head = slice_of(chars.as_slice(), 0, i);
            let localhost = chars_of("localhost");
            assert(head@ == name@.take(i as int));
            if contains_char(head.as_slice(), '.') || contains_char(head.as_slice(), ':')
                || slice_eq(head.as_slice(), localhost.as_slice()) {
                Some(i)
            } else {
                None
            }
        },
        None => None,
    }
}

/// Extract the registry from a container image name; `docker.io` when the
/// name carries none.
pub fn extract_registry(image_name: &str) -> (r: String)
    ensures
        r@ == registry_of(image_name@),
{
    match registry_split(image_name) {
        Some(i) => {
            let chars = chars_of(image_name);
            string_of(slice_of(chars.as_slice(), 0, i).as_slice())
        },
        None => owned("docker.io"),
    }
}

/// Extract the image name without its registry.
pub fn extract_image_path(image_name: &str) -> (r: String)
    ensures
        r@ == image_path_of(image_name@),
{
    match registry_split(image_name) {
        Some(i) => {
            let chars = chars_of(image_name);
            proof {
                lemma_first_index_bounds(image_name@, '/');
            }
            assert(i < chars.len());
            let rest = slice_of(chars.as_slice(), i + 1, chars.len());
            assert(rest@ == image_name@.skip(i + 1));
            string_of(rest.as_slice())
        },
        None => owned(image_name),
    }
}

// ---------------------------------------------------------------------------
// Versions
// ---------------------------------------------------------------------------

/// Parse a version string into its numbers: leading `v`/`V` removed, parts
/// split at `.`, each part read up to its first `-`.
pub fn parse_semver(v: &str) -> (r: Result<Vec<u64>, ()>)
    ensures
        match r {
            Ok(x) => crate::order::semver_numbers(v@) == Some(x@),
            Err(_) => crate::order::semver_numbers(v@) is None,
        },
{
    match version_numbers(v) {
        Some(x) => Ok(x),
        None => Err(()),
    }
}

/// Compare two version strings: numerically when both parse as numbers,
/// otherwise as texts. Always gives an answer.
pub fn compare_versions(a: &str, b: &str) -> (r: Option<Ordering>)
    ensures
        r == Some(version_order(a@, b@)),
{
    match (parse_semver(a), parse_semver(b)) {
        (Ok(x), Ok(y)) => Some(compare_numbers(x.as_slice(), y.as_slice())),
        _ => Some(compare_text(a, b)),
    }
}

// ---------------------------------------------------------------------------
// Conflicts between a source component and its destination
// ---------------------------------------------------------------------------

/// The first chart of `charts` named `name`.
pub open spec fn find_chart(charts: Seq<ChartView>, name: Seq<char>) -> Option<ChartView>
    decreases charts.len(),
{
    if charts.len() == 0 {
        None
    } else if charts[0].name == name {
        Some(charts[0])
    } else {
        find_chart(charts.drop_first(), name)
    }
}

/// The first image of `images` named `name`.
pub open spec fn find_image(images: Seq<ImageView>, name: Seq<char>) -> Option<ImageView>
    decreases images.len(),
{
    if images.len() == 0 {
        None
    } else if images[0].name == name {
        Some(images[0])
    } else {
        find_image(images.drop_first(), name)
    }
}

/// The first image of `images` whose name without registry is `path`.
pub open spec fn find_image_by_path(images: Seq<ImageView>, path: Seq<char>) -> Option<ImageView>
    decreases images.len(),
{
    if images.len() == 0 {
        None
    } else if image_path_of(images[0].name) == path {
        Some(images[0])
    } else {
        find_image_by_path(images.drop_first(), path)
    }
}

/// A repository-change conflict when both charts name repositories that
/// differ after normalization.
pub open spec fn repository_conflict(component: Seq<char>, src: ChartView, dst: ChartView) -> Seq<
    ConflictView,
> {
    match (src.repository, dst.repository) {
        (Some(s), Some(d)) => if normalized_url(s) != normalized_url(d) {
            seq![
                ConflictView {
                    component,
                    file: src.source_file,
                    kind: ConflictKindView::RepositoryChange {
                        chart_name: src.name,
                        from_repo: d,
                        to_repo: s,
                    },
                    details: "Repository change for "@ + src.name + ": "@ + d + " -> "@ + s,
                },
            ]
        } else {
            Seq::empty()
        },
        _ => Seq::empty(),
    }
}

/// A downgrade conflict when the source chart's version is lower.
pub open spec fn chart_downgrade(component: Seq<char>, src: ChartView, dst: ChartView) -> Seq<
    ConflictView,
> {
    if version_order(src.version, dst.version) == Ordering::Less {
        seq![
            ConflictView {
                component,
                file: src.source_file,
                kind: ConflictKindView::VersionDowngrade {
                    chart_name: src.name,
                    from: dst.version,
                    to: src.version,
                },
                details: "Downgrading "@ + src.name + " from "@ + dst.version + " to "@ + src.version,
            },
        ]
    } else {
        Seq::empty()
    }
}

/// Conflicts of one source chart against the destination charts.
pub open spec fn chart_conflicts(component: Seq<char>, src: ChartView, dsts: Seq<ChartView>) -> Seq<
    ConflictView,
> {
    match find_chart(dsts, src.name) {
        Some(d) => repository_conflict(component, src, d) + chart_downgrade(component, src, d),
        None => Seq::empty(),
    }
}

/// Conflicts of one source image against the destination images: for an
/// image of the same name, a registry change and a tag downgrade; otherwise,
/// for an image with the same path under another registry, a registry change.
pub open spec fn image_conflicts(component: Seq<char>, src: ImageView, dsts: Seq<ImageView>) -> Seq<
    ConflictView,
> {
    match find_image(dsts, src.name) {
        Some(d) => {
            let sr = registry_of(src.name);
            let dr = registry_of(d.name);
            let registry = if sr != dr {
                seq![
                    ConflictView {
                        component,
                        file: src.source_file,
                        kind: ConflictKindView::RegistryChange {
                            image_name: src.name,
                            from_registry: dr,
                            to_registry: sr,
                        },
                        details: "Registry change for "@ + src.name + ": "@ + dr + " -> "@ + sr,
                    },
                ]
            } else {
                Seq::empty()
            };
            let downgrade = if version_order(src.tag, d.tag) == Ordering::Less {
                seq![
                    ConflictView {
                        component,
                        file: src.source_file,
                        kind: ConflictKindView::ImageDowngrade {
                            image_name: src.name,
                            from: d.tag,
                            to: src.tag,
                        },
                        details: "Downgrading "@ + src.name + " from "@ + d.tag + " to "@ + src.tag,
                    },
                ]
            } else {
                Seq::empty()
            };
            registry + downgrade
        },
        None => match find_image_by_path(dsts, image_path_of(src.name)) {
            Some(d) => {
                let core = image_path_of(src.name);
                let sr = registry_of(src.name);
                let dr = registry_of(d.name);
                seq![
                    ConflictView {
                        component,
                        file: src.source_file,
                        kind: ConflictKindView::RegistryChange {
                            image_name: src.name,
                            from_registry: dr,
                            to_registry: sr,
                        },
                        details: "Registry change for "@ + core + ": "@ + d.name + " ("@ + dr
                            + ") -> "@ + src.name + " ("@ + sr + ")"@,
                    },
                ]
            },
            None => Seq::empty(),
        },
    }
}

/// Conflicts of all source charts, in order.
pub open spec fn charts_conflicts(component: Seq<char>, srcs: Seq<ChartView>, dsts: Seq<ChartView>) -> Seq<
    ConflictView,
>
    decreases srcs.len(),
{
    if srcs.len() == 0 {
        Seq::empty()
    } else {
        charts_conflicts(component, srcs.drop_last(), dsts) + chart_conflicts(
            component,
            srcs.last(),
            dsts,
        )
    }
}

/// Conflicts of all source images, in order.
pub open spec fn images_conflicts(component: Seq<char>, srcs: Seq<ImageView>, dsts: Seq<ImageView>) -> Seq<
    ConflictView,
>
    decreases srcs.len(),
{
    if srcs.len() == 0 {
        Seq::empty()
    } else {
        images_conflicts(component, srcs.drop_last(), dsts) + image_conflicts(
            component,
            srcs.last(),
            dsts,
        )
    }
}

/// Conflicts of a source component against its destination: chart conflicts
/// first, then image conflicts.
pub open spec fn component_conflicts(component: Seq<char>, src: ComponentView, dst: ComponentView) -> Seq<
    ConflictView,
> {
    charts_conflicts(component, src.helm_charts, dst.helm_charts) + images_conflicts(
        component,
        src.container_images,
        dst.container_images,
    )
}

/// Position of the first chart named `name`.
fn find_chart_index(charts: &Vec<HelmChartVersion>, name: &str) -> (r: Option<usize>)
    ensures
        match r {
            Some(i) => i < charts@.len() && find_chart(charts.deep_view(), name@) == Some(
                charts@[i as int]@,
            ),
            None => find_chart(charts.deep_view(), name@) is None,
        },
{
    let mut i: usize = 0;
    assert(charts.deep_view().skip(0) =~= charts.deep_view());
    while i < charts.len()
        invariant
            i <= charts@.len(),
            find_chart(charts.deep_view(), name@) == find_chart(
                charts.deep_view().skip(i as int),
                name@,
            ),
        decreases charts@.len() - i,
    {
        proof {
            assert(charts.deep_view().skip(i as int).drop_first() =~= charts.deep_view().skip(
                i + 1,
            ));
        }
        if str_eq(charts[i].name.as_str(), name) {
            return Some(i);
        }
        i += 1;
    }
    None
}

/// Position of the first image named `name`.
fn find_image_index(images: &Vec<ContainerImageVersion>, name: &str) -> (r: Option<usize>)
    ensures
        match r {
            Some(i) => i < images@.len() && find_image(images.deep_view(), name@) == Some(
                images@[i as int]@,
            ),
            None => find_image(images.deep_view(), name@) is None,
        },
{
    let mut i: usize = 0;
    assert(images.deep_view().skip(0) =~= images.deep_view());
    while i < images.len()
        invariant
            i <= images@.len(),
            find_image(images.deep_view(), name@) == find_image(
                images.deep_view().skip(i as int),
                name@,
            ),
        decreases images@.len() - i,
    {
        proof {
            assert(images.deep_view().skip(i as int).drop_first() =~= images.deep_view().skip(
                i + 1,
            ));
        }
        if str_eq(images[i].name.as_str(), name) {
            return Some(i);
        }
        i += 1;
    }
    None
}

/// Position of the first image whose name without registry is `path`.
fn find_image_path_index(images: &Vec<ContainerImageVersion>, path: &str) -> (r: Option<usize>)
    ensures
        match r {
            Some(i) => i < images@.len() && find_image_by_path(images.deep_view(), path@) == Some(
                images@[i as int]@,
            ),
            None => find_image_by_path(images.deep_view(), path@) is None,
        },
{
    let mut i: usize = 0;
    assert(images.deep_view().skip(0) =~= images.deep_view());
    while i < images.len()
        invariant
            i <= images@.len(),
            find_image_by_path(images.deep_view(), path@) == find_image_by_path(
                images.deep_view().skip(i as int),
                path@,
            ),
        decreases images@.len() - i,
    {
        proof {
            assert(images.deep_view().skip(i as int).drop_first() =~= images.deep_view().skip(
                i + 1,
            ));
        }
        let p = extract_image_path(images[i].name.as_str());
        if str_eq(p.as_str(), path) {
            return Some(i);
        }
        i += 1;
    }
    None
}

/// Whether `o` says "less".
fn is_less(o: Option<Ordering>) -> (r: bool)
    ensures
        r == (o == Some(Ordering::Less)),
{
    match o {
        Some(Ordering::Less) => true,
        _ => false,
    }
}

/// Conflicts of one source chart, appended to `conflicts`.
fn check_chart(
    component: &str,
    src: &HelmChartVersion,
    dest: &ComponentVersions,
    conflicts: &mut Vec<Conflict>,
)
    ensures
        final(conflicts).deep_view() == old(conflicts).deep_view() + chart_conflicts(
            component@,
            src@,
            dest@.helm_charts,
        ),
{
    let ghost start = conflicts.deep_view();
    match find_chart_index(&dest.helm_charts, src.name.as_str()) {
        None => {
            assert(conflicts.deep_view() =~= start + Seq::<ConflictView>::empty());
        },
        Some(k) => {
            let dst = &dest.helm_charts[k];
            let ghost rep = repository_conflict(component@, src@, dst@);
            match (&src.repository, &dst.repository) {
                (Some(s), Some(d)) => {
                    if !repositories_equal(s.as_str(), d.as_str()) {
                        let details = cat(
                            &[
                                "Repository change for ",
                                src.name.as_str(),
                                ": ",
                                d.as_str(),
                                " -> ",
                                s.as_str(),
                            ],
                        );
                        let ghost prev = conflicts@;
                        let c = Conflict {
                            component: owned(component),
                            file: src.source_file.clone(),
                            kind: ConflictKind::RepositoryChange {
                                chart_name: src.name.clone(),
                                from_repo: d.clone(),
                                to_repo: s.clone(),
                            },
                            details,
                        };
                        conflicts.push(c);
                        proof {
                            crate::versions::models::lemma_deep_view_push(prev, conflicts@, c);
                            reveal_with_fuel(cat_views, 7);
                        }
                    }
                },
                _ => {},
            }
            assert(conflicts.deep_view() =~= start + rep);
            if is_less(compare_versions(src.version.as_str(), dst.version.as_str())) {
                let details = cat(
                    &[
                        "Downgrading ",
                        src.name.as_str(),
                        " from ",
                        dst.version.as_str(),
                        " to ",
                        src.version.as_str(),
                    ],
                );
                let ghost prev = conflicts@;
                let c = Conflict {
                    component: owned(component),
                    file: src.source_file.clone(),
                    kind: ConflictKind::VersionDowngrade {
                        chart_name: src.name.clone(),
                        from: dst.version.clone(),
                        to: src.version.clone(),
                    },
                    details,
                };
                conflicts.push(c);
                proof {
                    crate::versions::models::lemma_deep_view_push(prev, conflicts@, c);
                    reveal_with_fuel(cat_views, 7);
                }
            }
            assert(conflicts.deep_view() =~= start + rep + chart_downgrade(
                component@,
                src@,
                dst@,
            ));
        },
    }
}

/// Conflicts of one source image, appended to `conflicts`.
fn check_image(
    component: &str,
    src: &ContainerImageVersion,
    dest: &ComponentVersions,
    conflicts: &mut Vec<Conflict>,
)
    ensures
        final(conflicts).deep_view() == old(conflicts).deep_view() + image_conflicts(
            component@,
            src@,
            dest@.container_images,
        ),
{
    let ghost start = conflicts.deep_view();
    match find_image_index(&dest.container_images, src.name.as_str()) {
        Some(k) => {
            let dst = &dest.container_images[k];
            let src_registry = extract_registry(src.name.as_str());
            let dest_registry = extract_registry(dst.name.as_str());
            let ghost sr = registry_of(src@.name);
            let ghost dr = registry_of(dst@.name);
            let ghost reg: Seq<ConflictView> = if sr != dr {
                seq![
                    ConflictView {
                        component: component@,
                        file: src@.source_file,
                        kind: ConflictKindView::RegistryChange {
                            image_name: src@.name,
                            from_registry: dr,
                            to_registry: sr,
                        },
                        details: "Registry change for "@ + src@.name + ": "@ + dr + " -> "@ + sr,
                    },
                ]
            } else {
                Seq::empty()
            };
            if !str_eq(src_registry.as_str(), dest_registry.as_str()) {
                let details = cat(
                    &[
                        "Registry change for ",
                        src.name.as_str(),
                        ": ",
                        dest_registry.as_str(),
                        " -> ",
                        src_registry.as_str(),
                    ],
                );
                let ghost prev = conflicts@;
                let c = Conflict {
                    component: owned(component),
                    file: src.source_file.clone(),
                    kind: ConflictKind::RegistryChange {
                        image_name: src.name.clone(),
                        from_registry: dest_registry,
                        to_registry: src_registry,
                    },
                    details,
                };
                conflicts.push(c);
                proof {
                    crate::versions::models::lemma_deep_view_push(prev, conflicts@, c);
                    reveal_with_fuel(cat_views, 7);
                }
            }
            assert(conflicts.deep_view() =~= start + reg);
            if is_less(compare_versions(src.tag.as_str(), dst.tag.as_str())) {
                let details = cat(
                    &[
                        "Downgrading ",
                        src.name.as_str(),
                        " from ",
                        dst.tag.as_str(),
                        " to ",
                        src.tag.as_str(),
                    ],
                );
                let ghost prev = conflicts@;
                let c = Conflict {
                    component: owned(component),
                    file: src.source_file.clone(),
                    kind: ConflictKind::ImageDowngrade {
                        image_name: src.name.clone(),
                        from: dst.tag.clone(),
                        to: src.tag.clone(),
                    },
                    details,
                };
                conflicts.push(c);
                proof {
                    crate::versions::models::lemma_deep_view_push(prev, conflicts@, c);
                    reveal_with_fuel(cat_views, 7);
                }
            }
            assert(conflicts.deep_view() =~= start + image_conflicts(
                component@,
                src@,
                dest@.container_images,
            ));
        },
        None => {
            let core = extract_image_path(src.name.as_str());
            match find_image_path_index(&dest.container_images, core.as_str()) {
                Some(k) => {
                    let dst = &dest.container_images[k];
                    let src_registry = extract_registry(src.name.as_str());
                    let dest_registry = extract_registry(dst.name.as_str());
                    let details = cat(
                        &[
                            "Registry change for ",
                            core.as_str(),
                            ": ",
                            dst.name.as_str(),
                            " (",
                            dest_registry.as_str(),
                            ") -> ",
                            src.name.as_str(),
                            " (",
                            src_registry.as_str(),
                            ")",
                        ],
                    );
                    let ghost prev = conflicts@;
                    let c = Conflict {
                        component: owned(component),
                        file: src.source_file.clone(),
                        kind: ConflictKind::RegistryChange {
                            image_name: src.name.clone(),
                            from_registry: dest_registry,
                            to_registry: src_registry,
                        },
                        details,
                    };
                    conflicts.push(c);
                    proof {
                        crate::versions::models::lemma_deep_view_push(prev, conflicts@, c);
                        reveal_with_fuel(cat_views, 12);
                    }
                    assert(conflicts.deep_view() =~= start + image_conflicts(
                        component@,
                        src@,
                        dest@.container_images,
                    ));
                },
                None => {
                    assert(conflicts.deep_view() =~= start + Seq::<ConflictView>::empty());
                },
            }
        },
    }
}

/// Appends to `conflicts` the conflicts of `source` against `dest`: for each
/// source chart, a repository change and a downgrade against the destination
/// chart of the same name; for each source image, a registry change and a tag
/// downgrade against the destination image of the same name, or a registry
/// change against an image with the same path under another registry.
pub fn check_component_conflicts(
    component: &str,
    source: &ComponentVersions,
    dest: &ComponentVersions,
    conflicts: &mut Vec<Conflict>,
)
    ensures
        final(conflicts).deep_view() == old(conflicts).deep_view() + component_conflicts(
            component@,
            source@,
            dest@,
        ),
{
    let ghost start = conflicts.deep_view();
    let mut i: usize = 0;
    while i < source.helm_charts.len()
        invariant
            i <= source.helm_charts@.len(),
            conflicts.deep_view() == start + charts_conflicts(
                component@,
                source@.helm_charts.take(i as int),
                dest@.helm_charts,
            ),
        decreases source.helm_charts@.len() - i,
    {
        check_chart(component, &source.helm_charts[i], dest, conflicts);
        proof {
            let srcs = source@.helm_charts;
            assert(srcs.take(i + 1).drop_last() =~= srcs.take(i as int));
            assert(srcs.take(i + 1).last() == source.helm_charts@[i as int]@);
        }
        i += 1;
    }
    assert(source@.helm_charts.take(i as int) =~= source@.helm_charts);
    let ghost mid = conflicts.deep_view();
    let mut j: usize = 0;
    while j < source.container_images.len()
        invariant
            j <= source.container_images@.len(),
            conflicts.deep_view() == mid + images_conflicts(
                component@,
                source@.container_images.take(j as int),
                dest@.container_images,
            ),
        decreases source.container_images@.len() - j,
    {
        check_image(component, &source.container_images[j], dest, conflicts);
        proof {
            let srcs = source@.container_images;
            assert(srcs.take(j + 1).drop_last() =~= srcs.take(j as int));
            assert(srcs.take(j + 1).last() == source.container_images@[j as int]@);
        }
        j += 1;
    }
    assert(source@.container_images.take(j as int) =~= source@.container_images);
}

/// Conflicts of every source component that the destination also has, in
/// the order of the source's components.
pub open spec fn report_conflicts(
    srcs: Seq<(String, ComponentVersions)>,
    dsts: Seq<(String, ComponentVersions)>,
) -> Seq<ConflictView>
    decreases srcs.len(),
{
    if srcs.len() == 0 {
        Seq::empty()
    } else {
        let (name, versions) = srcs.last();
        report_conflicts(srcs.drop_last(), dsts) + match value_of(dsts, name@) {
            Some(d) => component_conflicts(name@, versions@, d@),
            None => Seq::empty(),
        }
    }
}

/// Detect conflicts between source versions and destination versions.
pub fn detect_conflicts(source: &VersionReport, dest: &VersionReport) -> (r: Vec<Conflict>)
    ensures
        r.deep_view() == report_conflicts(source.components@, dest.components@),
{
    let mut conflicts: Vec<Conflict> = Vec::new();
    let mut i: usize = 0;
    while i < source.components.len()
        invariant
            i <= source.components@.len(),
            conflicts.deep_view() == report_conflicts(
                source.components@.take(i as int),
                dest.components@,
            ),
        decreases source.components@.len() - i,
    {
        let (name, versions) = (&source.components[i].0, &source.components[i].1);
        proof {
            assert(source.components@.take(i + 1).drop_last() =~= source.components@.take(
                i as int,
            ));
        }
        match lookup(&dest.components, name.as_str()) {
            Some(d) => {
                check_component_conflicts(name.as_str(), versions, d, &mut conflicts);
            },
            None => {
                assert(conflicts.deep_view() =~= conflicts.deep_view() + Seq::<ConflictView>::empty());
            },
        }
        i += 1;
    }
    assert(source.components@.take(i as int) =~= source.components@);
    conflicts
}

/// The handling the rules give to a source change of `component` (its own
/// rule's, else `Warn`).
pub open spec fn handling_for(rules: PromotionRules, component: Seq<char>) -> SourceChangeHandling {
    match value_of(rules.components@, component) {
        Some(rule) => rule.source_change_handling,
        None => SourceChangeHandling::Warn,
    }
}

/// Whether a conflict stays after filtering.
pub open spec fn conflict_kept(rules: PromotionRules, c: ConflictView) -> bool {
    !((c.kind is RepositoryChange || c.kind is RegistryChange) && handling_for(rules, c.component)
        == SourceChangeHandling::Ignore)
}

/// Whether a conflict blocks the promotion.
pub open spec fn conflict_blocks(rules: PromotionRules, c: ConflictView) -> bool {
    (c.kind is RepositoryChange || c.kind is RegistryChange) && (handling_for(rules, c.component)
        == SourceChangeHandling::Review || handling_for(rules, c.component)
        == SourceChangeHandling::Block)
}

/// The conflicts that stay, in order.
pub open spec fn kept_conflicts(rules: PromotionRules, cs: Seq<ConflictView>) -> Seq<ConflictView>
    decreases cs.len(),
{
    if cs.len() == 0 {
        Seq::empty()
    } else if conflict_kept(rules, cs.last()) {
        kept_conflicts(rules, cs.drop_last()).push(cs.last())
    } else {
        kept_conflicts(rules, cs.drop_last())
    }
}

/// Get source change handling for a component: the component rule's policy,
/// or `Warn` when there is none.
pub fn get_source_change_handling(rules: &PromotionRules, component: &str) -> (r: SourceChangeHandling)
    ensures
        r == handling_for(*rules, component@),
{
    match lookup(&rules.components, component) {
        Some(rule) => rule.source_change_handling,
        None => SourceChangeHandling::Warn,
    }
}

/// Filter repository and registry changes by the components' source-change
/// handling: `Ignore` drops them, `Warn` keeps them, `Review` and `Block`
/// keep them and report a blocking conflict. Other conflicts are kept.
pub fn filter_source_change_conflicts(conflicts: Vec<Conflict>, rules: &PromotionRules) -> (r: (
    Vec<Conflict>,
    bool,
))
    ensures
        r.0.deep_view() == kept_conflicts(*rules, conflicts.deep_view()),
        r.1 == exists|i: int|
            0 <= i < conflicts@.len() && conflict_blocks(*rules, #[trigger] conflicts@[i]@),
{
    let mut filtered: Vec<Conflict> = Vec::new();
    let mut has_blocking = false;
    let mut i: usize = 0;
    while i < conflicts.len()
        invariant
            i <= conflicts@.len(),
            filtered.deep_view() == kept_conflicts(*rules, conflicts.deep_view().take(i as int)),
            has_blocking == exists|j: int|
                0 <= j < i && conflict_blocks(*rules, #[trigger] conflicts@[j]@),
        decreases conflicts@.len() - i,
    {
        let c = &conflicts[i];
        proof {
            assert(conflicts.deep_view().take(i + 1).drop_last() =~= conflicts.deep_view().take(
                i as int,
            ));
            assert(conflicts.deep_view().take(i + 1).last() == c@);
        }
        let mut keep = true;
        if c.is_source_change() {
            match get_source_change_handling(rules, c.component.as_str()) {
                SourceChangeHandling::Ignore => {
                    keep = false;
                },
                SourceChangeHandling::Warn => {},
                SourceChangeHandling::Review => {
                    has_blocking = true;
                },
                SourceChangeHandling::Block => {
                    has_blocking = true;
                },
            }
        }
        if keep {
            let ghost prev = filtered@;
            let k = c.copy();
            filtered.push(k);
            proof {
                crate::versions::models::lemma_deep_view_push(prev, filtered@, k);
            }
        }
        i += 1;
    }
    assert(conflicts.deep_view().take(i as int) =~= conflicts.deep_view());
    (filtered, has_blocking)
}

} // verus!
