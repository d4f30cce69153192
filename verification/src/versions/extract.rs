//! Version extraction from Kubernetes manifests: helm charts of
//! `kustomization.yaml` and `Chart.yaml`, container images of values files.
use vstd::prelude::*;
use crate::ext::{parse_yaml, yaml_document};
use crate::keyed::{find_key, key_index, lemma_key_index_bounds};
use crate::text::{
    all_ascii_digits, all_digits, cat, cat_views, chars_of, concat, contains, contains_sub,
    decimal, decimal_string, first_index, find_char, last_index, owned, rfind_char, slice_of,
    str_eq, string_of, trim_end_char, trim_end_matches, ends_with, is_suffix,
};
use crate::versions::models::{
    distinct_keys,
    ChartView, ComponentVersions, ComponentView, ContainerImageVersion, HelmChartVersion,
    ImageView, lemma_deep_view_push,
};
use crate::yaml::{
    YamlValue, YamlView, as_text, entries_view, entry_lookup, entry_value, get, get_key,
    get_text, items_view, key_text, lemma_entries_view, lemma_entries_view_take, lemma_items_view,
    lemma_items_view_take, text_of, untag, untag_ref,
};

verus! {

// ---------------------------------------------------------------------------
// Image strings
// ---------------------------------------------------------------------------

/// The repository and tag (or digest) of an image reference `repo:tag` or
/// `repo@digest`. A last `:` followed by at most five digits is taken for a
/// registry port, and the tag then follows the `:` before it.
pub open spec fn image_parts(s: Seq<char>) -> Option<(Seq<char>, Seq<char>)> {
    match first_index(s, '@') {
        Some(at) => Some((s.take(at), s.skip(at + 1))),
        None => match last_index(s, ':') {
            None => None,
            Some(c) => if all_digits(s.skip(c + 1)) && s.len() - (c + 1) <= 5 {
                match last_index(s.take(c), ':') {
                    Some(c2) => Some((s.take(c2), s.skip(c2 + 1))),
                    None => None,
                }
            } else if c > 0 && c + 1 < s.len() {
                Some((s.take(c), s.skip(c + 1)))
            } else {
                None
            },
        },
    }
}

/// Parse an image string `repo:tag` or `repo@digest`.
pub fn parse_image_string(s: &str) -> (r: Option<(String, String)>)
    ensures
        match r {
            Some((repo, tag)) => image_parts(s@) == Some((repo@, tag@)),
            None => image_parts(s@) is None,
        },
{
    let chars = chars_of(s);
    let n = chars.len();
    if let Some(at) = find_char(chars.as_slice(), '@') {
        let repo = string_of(slice_of(chars.as_slice(), 0, at).as_slice());
        let digest = string_of(slice_of(chars.as_slice(), at + 1, n).as_slice());
        assert(s@.subrange(0, at as int) =~= s@.take(at as int));
        assert(s@.subrange(at + 1, n as int) =~= s@.skip(at + 1));
        return Some((repo, digest));
    }
    let last = match rfind_char(chars.as_slice(), ':') {
        Some(c) => c,
        None => {
            return None;
        },
    };
    let after = slice_of(chars.as_slice(), last + 1, n);
    assert(after@ =~= s@.skip(last + 1));
    if all_ascii_digits(after.as_slice()) && after.len() <= 5 {
        let before = slice_of(chars.as_slice(), 0, last);
        assert(before@ =~= s@.take(last as int));
        match rfind_char(before.as_slice(), ':') {
            Some(c2) => {
                let repo = string_of(slice_of(chars.as_slice(), 0, c2).as_slice());
                let tag = string_of(slice_of(chars.as_slice(), c2 + 1, n).as_slice());
                assert(s@.subrange(0, c2 as int) =~= s@.take(c2 as int));
                assert(s@.subrange(c2 + 1, n as int) =~= s@.skip(c2 + 1));
                Some((repo, tag))
            },
            None => None,
        }
    } else if last > 0 && last + 1 < n {
        let repo = string_of(slice_of(chars.as_slice(), 0, last).as_slice());
        let tag = string_of(after.as_slice());
        assert(s@.subrange(0, last as int) =~= s@.take(last as int));
        Some((repo, tag))
    } else {
        None
    }
}

// ---------------------------------------------------------------------------
// Which files are read
// ---------------------------------------------------------------------------

/// A path under a custom, test or template directory, or one that names a
/// secret.
pub open spec fn skipped_path(path: Seq<char>) -> bool {
    ||| contains_sub(path, "/custom/"@)
    ||| contains_sub(path, "/test/"@)
    ||| contains_sub(path, "/tests/"@)
    ||| contains_sub(path, "/templates/"@)
    ||| contains_sub(path, "secrets"@)
    ||| contains_sub(path, "secret"@)
}

/// Whether a file is skipped for version extraction.
pub fn should_skip_file(path: &str) -> (r: bool)
    ensures
        r == skipped_path(path@),
{
    let p = chars_of(path);
    let pieces = ["/custom/", "/test/", "/tests/", "/templates/", "secrets", "secret"];
    let mut i: usize = 0;
    while i < 6
        invariant
            0 <= i <= 6,
            p@ == path@,
            pieces@ == seq!["/custom/", "/test/", "/tests/", "/templates/", "secrets", "secret"],
            forall|j: int| 0 <= j < i ==> !contains_sub(path@, (#[trigger] pieces@[j])@),
        decreases 6 - i,
    {
        let piece = chars_of(pieces[i]);
        if contains(p.as_slice(), piece.as_slice()) {
            return true;
        }
        i += 1;
    }
    assert(!contains_sub(path@, pieces@[0]@));
    assert(!contains_sub(path@, pieces@[1]@));
    assert(!contains_sub(path@, pieces@[2]@));
    assert(!contains_sub(path@, pieces@[3]@));
    assert(!contains_sub(path@, pieces@[4]@));
    assert(!contains_sub(path@, pieces@[5]@));
    false
}

/// The directory of a relative file path (its text before the last `/`,
/// without trailing slashes); empty for a file at the top.
pub open spec fn component_dir(path: Seq<char>) -> Seq<char> {
    match last_index(path, '/') {
        Some(i) => trim_end_char(path.take(i), '/'),
        None => Seq::empty(),
    }
}

/// Get the component path of a file (its parent directory).
pub fn get_component_path(file_path: &str) -> (r: String)
    ensures
        r@ == component_dir(file_path@),
{
    let p = chars_of(file_path);
    match rfind_char(p.as_slice(), '/') {
        Some(i) => {
            let dir = slice_of(p.as_slice(), 0, i);
            assert(dir@ =~= file_path@.take(i as int));
            let t = trim_end_matches(dir.as_slice(), '/');
            string_of(t.as_slice())
        },
        None => String::new(),
    }
}

/// The kinds of files that versions are read from.
pub enum VersionFileKind {
    Kustomization,
    Chart,
    Values,
}

/// The kind of a file by its name.
pub open spec fn file_kind(name: Seq<char>) -> Option<VersionFileKind> {
    if name == "kustomization.yaml"@ || name == "kustomization.yml"@ {
        Some(VersionFileKind::Kustomization)
    } else if name == "Chart.yaml"@ || name == "Chart.yml"@ {
        Some(VersionFileKind::Chart)
    } else if name == "values.yaml"@ || name == "values.yml"@ || name == "values-images.yaml"@
        || name == "values-images.yml"@ {
        Some(VersionFileKind::Values)
    } else {
        None
    }
}

/// The kind of a file by its name: kustomizations, charts and values files
/// carry versions, no other file does.
pub fn version_file_kind(file_name: &str) -> (r: Option<VersionFileKind>)
    ensures
        r == file_kind(file_name@),
{
    if str_eq(file_name, "kustomization.yaml") || str_eq(file_name, "kustomization.yml") {
        Some(VersionFileKind::Kustomization)
    } else if str_eq(file_name, "Chart.yaml") || str_eq(file_name, "Chart.yml") {
        Some(VersionFileKind::Chart)
    } else if str_eq(file_name, "values.yaml") || str_eq(file_name, "values.yml") || str_eq(
        file_name,
        "values-images.yaml",
    ) || str_eq(file_name, "values-images.yml") {
        Some(VersionFileKind::Values)
    } else {
        None
    }
}

/// A relative path is read for versions: it is a YAML file, contains one of
/// the filters (when any are given) and is not skipped.
pub open spec fn path_selected(path: Seq<char>, filters: Seq<Seq<char>>) -> bool {
    &&& (is_suffix(".yaml"@, path) || is_suffix(".yml"@, path))
    &&& (filters.len() == 0 || exists|i: int| 0 <= i < filters.len() && contains_sub(path, #[trigger] filters[i]))
    &&& !skipped_path(path)
}

/// Whether a file at `relative` is read for versions.
pub fn is_version_candidate(relative: &str, filters: &Vec<String>) -> (r: bool)
    ensures
        r == path_selected(relative@, filters@.map_values(|f: String| f@)),
{
    let p = chars_of(relative);
    let yaml = chars_of(".yaml");
    let yml = chars_of(".yml");
    if !(ends_with(p.as_slice(), yaml.as_slice()) || ends_with(p.as_slice(), yml.as_slice())) {
        return false;
    }
    let ghost fs = filters@.map_values(|f: String| f@);
    if filters.len() > 0 {
        let mut found = false;
        let mut i: usize = 0;
        while i < filters.len()
            invariant
                i <= filters@.len(),
                fs == filters@.map_values(|f: String| f@),
                p@ == relative@,
                found <==> exists|j: int| 0 <= j < i && contains_sub(relative@, #[trigger] fs[j]),
            decreases filters@.len() - i,
        {
            let f = chars_of(filters[i].as_str());
            assert(fs[i as int] == filters@[i as int]@);
            if contains(p.as_slice(), f.as_slice()) {
                found = true;
            }
            i += 1;
            assert(found <==> exists|j: int| 0 <= j < i && contains_sub(relative@, #[trigger] fs[j]))
                by {
                if contains_sub(relative@, fs[i - 1]) {
                    assert(0 <= i - 1 < i);
                }
            }
        }
        if !found {
            return false;
        }
    }
    !should_skip_file(relative)
}

// ---------------------------------------------------------------------------
// Kustomization helm charts
// ---------------------------------------------------------------------------

/// The chart that one entry of `helmCharts` names: it needs a `name` and a
/// `version`; its repository is `repo`, else `repository`.
pub open spec fn kustomization_chart(item: YamlView, file: Seq<char>) -> Seq<ChartView> {
    match (key_text(item, "name"@), key_text(item, "version"@)) {
        (Some(name), Some(version)) => seq![
            ChartView {
                name: name,
                version: version,
                repository: match key_text(item, "repo"@) {
                    Some(r) => Some(r),
                    None => key_text(item, "repository"@),
                },
                source_file: file,
            },
        ],
        _ => Seq::empty(),
    }
}

/// The charts of a list of `helmCharts` entries, in order.
pub open spec fn kustomization_chart_list(items: Seq<YamlView>, file: Seq<char>) -> Seq<
    ChartView,
>
    decreases items.len(),
{
    if items.len() == 0 {
        Seq::empty()
    } else {
        kustomization_chart_list(items.drop_last(), file) + kustomization_chart(items.last(), file)
    }
}

/// The charts that a kustomization document lists under `helmCharts`.
pub open spec fn kustomization_charts(doc: YamlView, file: Seq<char>) -> Seq<ChartView> {
    match get_key(doc, "helmCharts"@) {
        Some(h) => match untag(h) {
            YamlView::Sequence(items) => kustomization_chart_list(items, file),
            _ => Seq::empty(),
        },
        None => Seq::empty(),
    }
}

/// A component with no path that holds only the given charts.
pub open spec fn with_charts(charts: Seq<ChartView>) -> ComponentView {
    ComponentView { path: Seq::empty(), helm_charts: charts, container_images: Seq::empty() }
}

/// A component with no path that holds only the given images.
pub open spec fn with_images(images: Seq<ImageView>) -> ComponentView {
    ComponentView { path: Seq::empty(), helm_charts: Seq::empty(), container_images: images }
}

/// The helm charts that a parsed kustomization document lists.
pub fn charts_from_kustomization(doc: &YamlValue, source_file: &str) -> (r: ComponentVersions)
    ensures
        r@ == with_charts(kustomization_charts(doc@, source_file@)),
{
    let mut charts: Vec<HelmChartVersion> = Vec::new();
    assert(charts.deep_view() =~= Seq::<ChartView>::empty());
    if let Some(h) = get(doc, "helmCharts") {
        if let YamlValue::Sequence(items) = untag_ref(h) {
            let ghost iv = items_view(items@);
            proof {
                lemma_items_view(items@);
            }
            let mut i: usize = 0;
            while i < items.len()
                invariant
                    i <= items@.len(),
                    iv == items_view(items@),
                    iv.len() == items@.len(),
                    forall|k: int| 0 <= k < items@.len() ==> #[trigger] iv[k] == items@[k]@,
                    charts.deep_view() == kustomization_chart_list(
                        iv.take(i as int),
                        source_file@,
                    ),
                decreases items@.len() - i,
            {
                assert(iv.take(i + 1).drop_last() =~= iv.take(i as int));
                assert(iv.take(i + 1).last() == items@[i as int]@);
                let item = &items[i];
                match (get_text(item, "name"), get_text(item, "version")) {
                    (Some(name), Some(version)) => {
                        let repository = match get_text(item, "repo") {
                            Some(r) => Some(r.clone()),
                            None => match get_text(item, "repository") {
                                Some(r) => Some(r.clone()),
                                None => None,
                            },
                        };
                        let c = HelmChartVersion {
                            name: name.clone(),
                            version: version.clone(),
                            repository,
                            source_file: owned(source_file),
                        };
                        let ghost prev = charts@;
                        charts.push(c);
                        proof {
                            lemma_deep_view_push(prev, charts@, c);
                        }
                    },
                    _ => {},
                }
                i += 1;
                assert(charts.deep_view() =~= kustomization_chart_list(
                    iv.take(i as int),
                    source_file@,
                ));
            }
            assert(iv.take(iv.len() as int) =~= iv);
        }
    }
    let r = ComponentVersions { path: String::new(), helm_charts: charts, container_images: Vec::new() };
    assert(r@.container_images =~= Seq::<ImageView>::empty());
    r
}

/// Extract versions from a kustomization's `helmCharts`; nothing when the
/// content is not YAML.
pub fn extract_from_kustomization(content: &str, source_file: &str) -> (r: ComponentVersions)
    ensures
        r@ == match yaml_document(content@) {
            Some(doc) => with_charts(kustomization_charts(doc, source_file@)),
            None => with_charts(Seq::empty()),
        },
{
    match parse_yaml(content) {
        Ok(doc) => charts_from_kustomization(&doc, source_file),
        Err(_) => {
            let r = ComponentVersions { path: String::new(), helm_charts: Vec::new(), container_images: Vec::new() };
            assert(r@.helm_charts =~= Seq::<ChartView>::empty());
            assert(r@.container_images =~= Seq::<ImageView>::empty());
            r
        },
    }
}

// ---------------------------------------------------------------------------
// Chart.yaml dependencies
// ---------------------------------------------------------------------------

/// One dependency of a `Chart.yaml`, as its `dependencies` list gives it
/// (an absent repository is empty).
pub struct ChartDependency {
    pub name: String,
    pub version: String,
    pub repository: String,
}

/// The chart record of a dependency: an empty repository is none.
pub open spec fn dependency_chart(d: ChartDependency, file: Seq<char>) -> ChartView {
    ChartView {
        name: d.name@,
        version: d.version@,
        repository: if d.repository@.len() == 0 {
            None
        } else {
            Some(d.repository@)
        },
        source_file: file,
    }
}

/// Extract versions from the dependencies of a `Chart.yaml`, in order.
pub fn extract_from_chart(dependencies: &Vec<ChartDependency>, source_file: &str) -> (r:
    ComponentVersions)
    ensures
        r@ == with_charts(
            Seq::new(
                dependencies@.len(),
                |i: int| dependency_chart(dependencies@[i], source_file@),
            ),
        ),
{
    let mut charts: Vec<HelmChartVersion> = Vec::new();
    let mut i: usize = 0;
    while i < dependencies.len()
        invariant
            i <= dependencies@.len(),
            charts.deep_view() == Seq::new(
                i as nat,
                |j: int| dependency_chart(dependencies@[j], source_file@),
            ),
        decreases dependencies@.len() - i,
    {
        let d = &dependencies[i];
        let c = HelmChartVersion {
            name: d.name.clone(),
            version: d.version.clone(),
            repository: if d.repository.as_str().is_empty() {
                None
            } else {
                Some(d.repository.clone())
            },
            source_file: owned(source_file),
        };
        let ghost prev = charts@;
        charts.push(c);
        proof {
            lemma_deep_view_push(prev, charts@, c);
        }
        i += 1;
        assert(charts.deep_view() =~= Seq::new(
            i as nat,
            |j: int| dependency_chart(dependencies@[j], source_file@),
        ));
    }
    let r = ComponentVersions { path: String::new(), helm_charts: charts, container_images: Vec::new() };
    assert(r@.container_images =~= Seq::<ImageView>::empty());
    r
}

// ---------------------------------------------------------------------------
// Images of values files
// ---------------------------------------------------------------------------

/// The record of an image found at `path`.
pub open spec fn image_record(name: Seq<char>, tag: Seq<char>, file: Seq<char>, path: Seq<char>) -> ImageView {
    ImageView {
        name: name,
        tag: tag,
        source_file: file,
        json_path: if path.len() == 0 {
            "image"@
        } else {
            path + ".image"@
        },
    }
}

/// The image of a mapping with a `repository` and a `tag` (which must be
/// neither empty nor `latest`).
pub open spec fn pair_image(entries: Seq<(YamlView, YamlView)>, file: Seq<char>, path: Seq<char>) -> Seq<ImageView> {
    match (entry_value(entries, "repository"@), entry_value(entries, "tag"@)) {
        (Some(r), Some(t)) => match (text_of(r), text_of(t)) {
            (Some(repo), Some(tag)) => if tag.len() > 0 && tag != "latest"@ {
                seq![image_record(repo, tag, file, path)]
            } else {
                Seq::empty()
            },
            _ => Seq::empty(),
        },
        _ => Seq::empty(),
    }
}

/// The image of a mapping whose `image` is a string `repo:tag`.
pub open spec fn string_image(entries: Seq<(YamlView, YamlView)>, file: Seq<char>, path: Seq<char>) -> Seq<ImageView> {
    match entry_value(entries, "image"@) {
        Some(v) => match text_of(v) {
            Some(s) => match image_parts(s) {
                Some((repo, tag)) => seq![image_record(repo, tag, file, path)],
                None => Seq::empty(),
            },
            None => Seq::empty(),
        },
        None => Seq::empty(),
    }
}

/// The path of the value under `key`.
pub open spec fn child_path(path: Seq<char>, key: Seq<char>) -> Seq<char> {
    if path.len() == 0 {
        key
    } else {
        path + "."@ + key
    }
}

/// The path of the `i`-th item of a sequence.
pub open spec fn item_path(path: Seq<char>, i: nat) -> Seq<char> {
    path + "["@ + decimal(i) + "]"@
}

/// The images found in `v` at `path`, depth first in document order.
pub open spec fn images_in(v: YamlView, file: Seq<char>, path: Seq<char>) -> Seq<ImageView>
    decreases v,
{
    match v {
        YamlView::Mapping(entries) => pair_image(entries, file, path) + string_image(
            entries,
            file,
            path,
        ) + entry_images(entries, file, path),
        YamlView::Sequence(items) => item_images(items, file, path),
        _ => Seq::empty(),
    }
}

/// The images under the string keys of a mapping.
pub open spec fn entry_images(entries: Seq<(YamlView, YamlView)>, file: Seq<char>, path: Seq<char>) -> Seq<ImageView>
    decreases entries,
{
    if entries.len() == 0 {
        Seq::empty()
    } else {
        entry_images(entries.drop_last(), file, path) + match text_of(entries.last().0) {
            Some(k) => images_in(entries.last().1, file, child_path(path, k)),
            None => Seq::empty(),
        }
    }
}

/// The images in the items of a sequence.
pub open spec fn item_images(items: Seq<YamlView>, file: Seq<char>, path: Seq<char>) -> Seq<ImageView>
    decreases items,
{
    if items.len() == 0 {
        Seq::empty()
    } else {
        item_images(items.drop_last(), file, path) + images_in(
            items.last(),
            file,
            item_path(path, (items.len() - 1) as nat),
        )
    }
}

/// Appends the image record for `name` and `tag` found at `path`.
fn push_image(
    name: &str,
    tag: &str,
    file: &str,
    path: &str,
    images: &mut Vec<ContainerImageVersion>,
)
    ensures
        final(images).deep_view() == old(images).deep_view().push(
            image_record(name@, tag@, file@, path@),
        ),
{
    let json_path = if path.is_empty() {
        owned("image")
    } else {
        concat(path, ".image")
    };
    let c = ContainerImageVersion {
        name: owned(name),
        tag: owned(tag),
        source_file: owned(file),
        json_path,
    };
    let ghost prev = images@;
    images.push(c);
    proof {
        lemma_deep_view_push(prev, images@, c);
    }
}

/// Appends the images that a mapping itself describes.
fn push_own_images(
    entries: &Vec<(YamlValue, YamlValue)>,
    file: &str,
    path: &str,
    images: &mut Vec<ContainerImageVersion>,
)
    ensures
        final(images).deep_view() == old(images).deep_view() + pair_image(
            entries_view(entries@),
            file@,
            path@,
        ) + string_image(entries_view(entries@), file@, path@),
{
    let ghost start = images.deep_view();
    match (entry_lookup(entries, "repository"), entry_lookup(entries, "tag")) {
        (Some(r), Some(t)) => match (as_text(r), as_text(t)) {
            (Some(repo), Some(tag)) => {
                if !tag.as_str().is_empty() && !str_eq(tag.as_str(), "latest") {
                    push_image(repo.as_str(), tag.as_str(), file, path, images);
                }
            },
            _ => {},
        },
        _ => {},
    }
    assert(images.deep_view() =~= start + pair_image(entries_view(entries@), file@, path@));
    let ghost mid = images.deep_view();
    if let Some(v) = entry_lookup(entries, "image") {
        if let Some(s) = as_text(v) {
            if let Some((repo, tag)) = parse_image_string(s.as_str()) {
                push_image(repo.as_str(), tag.as_str(), file, path, images);
            }
        }
    }
    assert(images.deep_view() =~= mid + string_image(entries_view(entries@), file@, path@));
}

/// Appends the images found in `value` at `path`.
fn collect_images(
    value: &YamlValue,
    file: &str,
    path: &str,
    images: &mut Vec<ContainerImageVersion>,
)
    ensures
        final(images).deep_view() == old(images).deep_view() + images_in(value@, file@, path@),
    decreases value,
{
    let ghost start = images.deep_view();
    match value {
        YamlValue::Mapping(entries) => {
            let ghost ev = entries_view(entries@);
            proof {
                lemma_entries_view(entries@);
            }
            push_own_images(entries, file, path, images);
            let ghost own = pair_image(ev, file@, path@) + string_image(ev, file@, path@);
            let mut i: usize = 0;
            while i < entries.len()
                invariant
                    i <= entries@.len(),
                    *value == YamlValue::Mapping(*entries),
                    ev == entries_view(entries@),
                    ev.len() == entries@.len(),
                    forall|k: int| 0 <= k < entries@.len() ==> #[trigger] ev[k] == (
                        entries@[k].0@,
                        entries@[k].1@,
                    ),
                    images.deep_view() == start + own + entry_images(
                        ev.take(i as int),
                        file@,
                        path@,
                    ),
                decreases entries@.len() - i,
            {
                assert(ev.take(i + 1).drop_last() =~= ev.take(i as int));
                assert(ev.take(i + 1).last() == ev[i as int]);
                if let Some(k) = as_text(&entries[i].0) {
                    let new_path = if path.is_empty() {
                        k.clone()
                    } else {
                        cat(&[path, ".", k.as_str()])
                    };
                    proof {
                        reveal_with_fuel(cat_views, 4);
                    }
                    proof {
                        assert(decreases_to!(*value => value->Mapping_0));
                        assert(decreases_to!(value->Mapping_0 => value->Mapping_0@));
                        assert(decreases_to!(value->Mapping_0@ => value->Mapping_0@[i as int]));
                        assert(decreases_to!(value->Mapping_0@[i as int] => value->Mapping_0@[i as int].1));
                    }
                    collect_images(&entries[i].1, file, new_path.as_str(), images);
                }
                i += 1;
                assert(images.deep_view() =~= start + own + entry_images(
                    ev.take(i as int),
                    file@,
                    path@,
                ));
            }
            assert(ev.take(ev.len() as int) =~= ev);
        },
        YamlValue::Sequence(items) => {
            let ghost iv = items_view(items@);
            proof {
                lemma_items_view(items@);
            }
            let mut i: usize = 0;
            while i < items.len()
                invariant
                    i <= items@.len(),
                    *value == YamlValue::Sequence(*items),
                    iv == items_view(items@),
                    iv.len() == items@.len(),
                    forall|k: int| 0 <= k < items@.len() ==> #[trigger] iv[k] == items@[k]@,
                    images.deep_view() == start + item_images(iv.take(i as int), file@, path@),
                decreases items@.len() - i,
            {
                assert(iv.take(i + 1).drop_last() =~= iv.take(i as int));
                assert(iv.take(i + 1).last() == iv[i as int]);
                let index = decimal_string(i as u64);
                let new_path = cat(&[path, "[", index.as_str(), "]"]);
                proof {
                    reveal_with_fuel(cat_views, 5);
                }
                proof {
                    assert(decreases_to!(*value => value->Sequence_0));
                    assert(decreases_to!(value->Sequence_0 => value->Sequence_0@));
                    assert(decreases_to!(value->Sequence_0@ => value->Sequence_0@[i as int]));
                }
                collect_images(&items[i], file, new_path.as_str(), images);
                i += 1;
                assert(images.deep_view() =~= start + item_images(
                    iv.take(i as int),
                    file@,
                    path@,
                ));
            }
            assert(iv.take(iv.len() as int) =~= iv);
        },
        _ => {
            assert(images.deep_view() =~= start + images_in(value@, file@, path@));
        },
    }
}

/// The container images of a parsed values document.
pub fn images_from_values(doc: &YamlValue, source_file: &str) -> (r: ComponentVersions)
    ensures
        r@ == with_images(images_in(doc@, source_file@, Seq::empty())),
{
    let mut images: Vec<ContainerImageVersion> = Vec::new();
    proof {
        reveal_strlit("");
    }
    assert(""@ =~= Seq::<char>::empty());
    assert(images.deep_view() =~= Seq::<ImageView>::empty());
    collect_images(doc, source_file, "", &mut images);
    assert(images.deep_view() =~= images_in(doc@, source_file@, ""@));
    let r = ComponentVersions { path: String::new(), helm_charts: Vec::new(), container_images: images };
    assert(r@.helm_charts =~= Seq::<ChartView>::empty());
    r
}

/// Extract container image tags from a values file; nothing when the content
/// is not YAML.
pub fn extract_from_values(content: &str, source_file: &str) -> (r: ComponentVersions)
    ensures
        r@ == match yaml_document(content@) {
            Some(doc) => with_images(images_in(doc, source_file@, Seq::empty())),
            None => with_images(Seq::empty()),
        },
{
    match parse_yaml(content) {
        Ok(doc) => images_from_values(&doc, source_file),
        Err(_) => {
            let r = ComponentVersions { path: String::new(), helm_charts: Vec::new(), container_images: Vec::new() };
            assert(r@.helm_charts =~= Seq::<ChartView>::empty());
            assert(r@.container_images =~= Seq::<ImageView>::empty());
            r
        },
    }
}

// ---------------------------------------------------------------------------
// Gathering a report
// ---------------------------------------------------------------------------

/// The entries of a report, as texts.
pub open spec fn report_view(c: Seq<(String, ComponentVersions)>) -> Seq<(Seq<char>, ComponentView)> {
    Seq::new(c.len(), |i: int| (c[i].0@, c[i].1@))
}

/// The entries after adding the versions `v` found under `key`: nothing
/// changes when `v` is empty; an existing component gains them at the end of
/// its lists; otherwise a component at `key` is added last.
pub open spec fn with_added(
    c: Seq<(String, ComponentVersions)>,
    key: Seq<char>,
    v: ComponentView,
) -> Seq<(Seq<char>, ComponentView)> {
    let e = report_view(c);
    if v.helm_charts.len() == 0 && v.container_images.len() == 0 {
        e
    } else {
        match key_index(c, key) {
            Some(i) => e.update(
                i,
                (
                    e[i].0,
                    ComponentView {
                        path: e[i].1.path,
                        helm_charts: e[i].1.helm_charts + v.helm_charts,
                        container_images: e[i].1.container_images + v.container_images,
                    },
                ),
            ),
            None => e.push(
                (
                    key,
                    ComponentView {
                        path: key,
                        helm_charts: v.helm_charts,
                        container_images: v.container_images,
                    },
                ),
            ),
        }
    }
}

/// Appends copies of `src` to `dst`.
pub fn append_charts(dst: &mut Vec<HelmChartVersion>, src: &Vec<HelmChartVersion>)
    ensures
        final(dst).deep_view() == old(dst).deep_view() + src.deep_view(),
{
    let ghost start = dst.deep_view();
    let mut i: usize = 0;
    while i < src.len()
        invariant
            i <= src@.len(),
            dst.deep_view() == start + src.deep_view().take(i as int),
        decreases src@.len() - i,
    {
        let c = src[i].copy();
        let ghost prev = dst@;
        dst.push(c);
        proof {
            lemma_deep_view_push(prev, dst@, c);
        }
        i += 1;
        assert(dst.deep_view() =~= start + src.deep_view().take(i as int));
    }
    assert(src.deep_view().take(i as int) =~= src.deep_view());
}

/// Appends copies of `src` to `dst`.
pub fn append_images(dst: &mut Vec<ContainerImageVersion>, src: &Vec<ContainerImageVersion>)
    ensures
        final(dst).deep_view() == old(dst).deep_view() + src.deep_view(),
{
    let ghost start = dst.deep_view();
    let mut i: usize = 0;
    while i < src.len()
        invariant
            i <= src@.len(),
            dst.deep_view() == start + src.deep_view().take(i as int),
        decreases src@.len() - i,
    {
        let c = src[i].copy();
        let ghost prev = dst@;
        dst.push(c);
        proof {
            lemma_deep_view_push(prev, dst@, c);
        }
        i += 1;
        assert(dst.deep_view() =~= start + src.deep_view().take(i as int));
    }
    assert(src.deep_view().take(i as int) =~= src.deep_view());
}

/// Records the versions that one file of a component gave.
pub fn add_component_versions(
    components: &mut Vec<(String, ComponentVersions)>,
    component_path: &str,
    versions: &ComponentVersions,
)
    ensures
        report_view(final(components)@) == with_added(
            old(components)@,
            component_path@,
            versions@,
        ),
        distinct_keys(old(components)@) ==> distinct_keys(final(components)@),
{
    if versions.helm_charts.len() == 0 && versions.container_images.len() == 0 {
        assert(report_view(components@) =~= with_added(
            components@,
            component_path@,
            versions@,
        ));
        return;
    }
    let ghost old_c = components@;
    match find_key(components, component_path) {
        Some(i) => {
            let mut c = components[i].1.copy();
            append_charts(&mut c.helm_charts, &versions.helm_charts);
            append_images(&mut c.container_images, &versions.container_images);
            let key = components[i].0.clone();
            components.set(i, (key, c));
            assert forall|k: int| 0 <= k < components@.len() implies components@[k].0@ == old_c[k].0@ by {}
            assert(report_view(components@) =~= with_added(
                old_c,
                component_path@,
                versions@,
            ));
        },
        None => {
            let mut c = ComponentVersions::empty(component_path);
            append_charts(&mut c.helm_charts, &versions.helm_charts);
            append_images(&mut c.container_images, &versions.container_images);
            components.push((owned(component_path), c));
            proof {
                lemma_key_index_bounds(old_c, component_path@);
                assert forall|k: int| 0 <= k < old_c.len() implies components@[k].0@ == old_c[k].0@
                    && old_c[k].0@ != component_path@ by {}
            }
            assert(report_view(components@) =~= with_added(
                old_c,
                component_path@,
                versions@,
            ));
        },
    }
}

} // verus!
