//! Version application to repository files: which components are applied,
//! and how kustomizations, charts and values files are rewritten.
use vstd::prelude::*;
use crate::versions::extract::VersionFileKind;
use crate::error::PromrailError;
use crate::ext::{
    entries_tags_named, items_tags_named, lemma_entries_tags_named, lemma_items_tags_named,
    parse_yaml, tags_named, yaml_document,
};
use crate::keyed::{lookup, value_of};
use crate::text::{contains, contains_sub, chars_of, owned, str_eq, views};
use crate::versions::merge::{find_chart, find_image, first_chart, first_image};
use crate::ext::render_yaml;
use crate::ext::yaml_rendering;
use crate::versions::models::{
    ApplyOptions, ChartView, ComponentVersions, ComponentView, ContainerImageDiff, ContainerImageVersion,
    FileVersionChange, FileVersionChangeView, HelmChartDiff, HelmChartVersion, ImageView,
    Snapshot, VersionChangeKind, VersionDiff, VersionReport, lemma_deep_view_push,
};
use crate::yaml::{
    YamlValue, YamlView, as_text, entries_view, entry_index, entry_lookup, entry_position, entry_value, get,
    get_key, get_text, items_view, key_text, lemma_entries_view, lemma_entry_index,
    lemma_items_view, set_key_value, text_of, untag, untag_ref, with_entry_value,
    with_key_value,
};

verus! {

// ---------------------------------------------------------------------------
// Which components are applied
// ---------------------------------------------------------------------------

/// A component is selected by a filter that it contains or that contains it.
pub open spec fn component_selected(component: Seq<char>, filters: Seq<Seq<char>>) -> bool {
    filters.len() == 0 || exists|i: int|
        0 <= i < filters.len() && (contains_sub(component, #[trigger] filters[i]) || contains_sub(
            filters[i],
            component,
        ))
}

/// Whether a component is selected by the filters.
pub fn is_component_selected(component: &str, filters: &Vec<String>) -> (r: bool)
    ensures
        r == component_selected(component@, views(filters@)),
{
    if filters.len() == 0 {
        return true;
    }
    let c = chars_of(component);
    let mut i: usize = 0;
    while i < filters.len()
        invariant
            i <= filters@.len(),
            c@ == component@,
            forall|j: int|
                0 <= j < i ==> !(contains_sub(component@, #[trigger] views(filters@)[j])
                    || contains_sub(views(filters@)[j], component@)),
        decreases filters@.len() - i,
    {
        let f = chars_of(filters[i].as_str());
        assert(views(filters@)[i as int] == filters@[i as int]@);
        if contains(c.as_slice(), f.as_slice()) || contains(f.as_slice(), c.as_slice()) {
            return true;
        }
        i += 1;
    }
    false
}

/// The components of a report that the filters select, in report order.
pub open spec fn selected_components(components: Seq<(String, ComponentVersions)>, filters: Seq<Seq<char>>) -> Seq<Seq<char>>
    decreases components.len(),
{
    if components.len() == 0 {
        Seq::empty()
    } else {
        let r = selected_components(components.drop_last(), filters);
        if component_selected(components.last().0@, filters) {
            r.push(components.last().0@)
        } else {
            r
        }
    }
}

/// The components of a report to apply: all of them without filters,
/// otherwise those a filter selects.
pub fn components_to_apply(report: &VersionReport, filters: &Vec<String>) -> (r: Vec<String>)
    ensures
        views(r@) == selected_components(report.components@, views(filters@)),
{
    let comps = &report.components;
    let mut r: Vec<String> = Vec::new();
    let mut i: usize = 0;
    while i < comps.len()
        invariant
            i <= comps@.len(),
            *comps == report.components,
            views(r@) == selected_components(comps@.take(i as int), views(filters@)),
        decreases comps@.len() - i,
    {
        assert(comps@.take(i + 1).drop_last() =~= comps@.take(i as int));
        if is_component_selected(comps[i].0.as_str(), filters) {
            let ghost prev = r@;
            r.push(comps[i].0.clone());
            assert(views(r@) =~= views(prev).push(comps@[i as int].0@));
        }
        i += 1;
    }
    assert(comps@.take(i as int) =~= comps@);
    r
}

// ---------------------------------------------------------------------------
// Comparing versions
// ---------------------------------------------------------------------------

/// A chart whose version differs, as texts.
pub struct ChartDiffView {
    pub name: Seq<char>,
    pub source_version: Seq<char>,
    pub dest_version: Seq<char>,
    pub changed: bool,
}

/// An image whose tag differs, as texts.
pub struct ImageDiffView {
    pub name: Seq<char>,
    pub source_tag: Seq<char>,
    pub dest_tag: Seq<char>,
    pub changed: bool,
}

impl View for HelmChartDiff {
    type V = ChartDiffView;

    open spec fn view(&self) -> ChartDiffView {
        ChartDiffView {
            name: self.name@,
            source_version: self.source_version@,
            dest_version: self.dest_version@,
            changed: self.changed,
        }
    }
}

impl DeepView for HelmChartDiff {
    type V = ChartDiffView;

    open spec fn deep_view(&self) -> ChartDiffView {
        self@
    }
}

impl View for ContainerImageDiff {
    type V = ImageDiffView;

    open spec fn view(&self) -> ImageDiffView {
        ImageDiffView {
            name: self.name@,
            source_tag: self.source_tag@,
            dest_tag: self.dest_tag@,
            changed: self.changed,
        }
    }
}

impl DeepView for ContainerImageDiff {
    type V = ImageDiffView;

    open spec fn deep_view(&self) -> ImageDiffView {
        self@
    }
}

/// The charts of `source` whose version differs from the first chart of the
/// same name in `dest`, in source order.
pub open spec fn chart_diffs(source: Seq<ChartView>, dest: Seq<ChartView>) -> Seq<ChartDiffView>
    decreases source.len(),
{
    if source.len() == 0 {
        Seq::empty()
    } else {
        let r = chart_diffs(source.drop_last(), dest);
        let s = source.last();
        match first_chart(dest, s.name) {
            Some(d) => if s.version != d.version {
                r.push(
                    ChartDiffView {
                        name: s.name,
                        source_version: s.version,
                        dest_version: d.version,
                        changed: true,
                    },
                )
            } else {
                r
            },
            None => r,
        }
    }
}

/// The images of `source` whose tag differs from the first image of the
/// same name in `dest`, in source order.
pub open spec fn image_diffs(source: Seq<ImageView>, dest: Seq<ImageView>) -> Seq<ImageDiffView>
    decreases source.len(),
{
    if source.len() == 0 {
        Seq::empty()
    } else {
        let r = image_diffs(source.drop_last(), dest);
        let s = source.last();
        match first_image(dest, s.name) {
            Some(d) => if s.tag != d.tag {
                r.push(ImageDiffView { name: s.name, source_tag: s.tag, dest_tag: d.tag, changed: true })
            } else {
                r
            },
            None => r,
        }
    }
}

/// Compare the versions of one component in two reports.
pub fn compare_components(component: &str, source: &ComponentVersions, dest: &ComponentVersions) -> (r:
    VersionDiff)
    ensures
        r.component@ == component@,
        r.helm_charts.deep_view() == chart_diffs(source@.helm_charts, dest@.helm_charts),
        r.container_images.deep_view() == image_diffs(
            source@.container_images,
            dest@.container_images,
        ),
{
    let ghost sc = source.helm_charts.deep_view();
    let mut charts: Vec<HelmChartDiff> = Vec::new();
    let mut i: usize = 0;
    while i < source.helm_charts.len()
        invariant
            i <= source.helm_charts@.len(),
            sc == source.helm_charts.deep_view(),
            charts.deep_view() == chart_diffs(sc.take(i as int), dest@.helm_charts),
        decreases source.helm_charts@.len() - i,
    {
        assert(sc.take(i + 1).drop_last() =~= sc.take(i as int));
        assert(sc.take(i + 1).last() == source.helm_charts@[i as int]@);
        let s = &source.helm_charts[i];
        let mut j: usize = 0;
        let ghost dv = dest.helm_charts.deep_view();
        assert(dv.skip(0) =~= dv);
        let mut found: Option<usize> = None;
        while j < dest.helm_charts.len()
            invariant_except_break
                found is None,
            invariant
                j <= dest.helm_charts@.len(),
                dv == dest.helm_charts.deep_view(),
                first_chart(dv, s.name@) == first_chart(dv.skip(j as int), s.name@),
            ensures
                match found {
                    Some(k) => k < dest.helm_charts@.len() && first_chart(dv, s.name@) == Some(
                        dest.helm_charts@[k as int]@,
                    ),
                    None => first_chart(dv, s.name@) is None,
                },
            decreases dest.helm_charts@.len() - j,
        {
            assert(dv.skip(j as int).drop_first() =~= dv.skip(j + 1));
            assert(dv.skip(j as int)[0] == dest.helm_charts@[j as int]@);
            if str_eq(dest.helm_charts[j].name.as_str(), s.name.as_str()) {
                found = Some(j);
                break;
            }
            j += 1;
        }
        if let Some(k) = found {
            let d = &dest.helm_charts[k];
            if !str_eq(s.version.as_str(), d.version.as_str()) {
                let c = HelmChartDiff {
                    name: s.name.clone(),
                    source_version: s.version.clone(),
                    dest_version: d.version.clone(),
                    changed: true,
                };
                let ghost prev = charts@;
                charts.push(c);
                proof {
                    lemma_deep_view_push(prev, charts@, c);
                }
            }
        }
        i += 1;
    }
    assert(sc.take(i as int) =~= sc);
    let ghost si = source.container_images.deep_view();
    let mut images: Vec<ContainerImageDiff> = Vec::new();
    let mut i: usize = 0;
    while i < source.container_images.len()
        invariant
            i <= source.container_images@.len(),
            si == source.container_images.deep_view(),
            images.deep_view() == image_diffs(si.take(i as int), dest@.container_images),
        decreases source.container_images@.len() - i,
    {
        assert(si.take(i + 1).drop_last() =~= si.take(i as int));
        assert(si.take(i + 1).last() == source.container_images@[i as int]@);
        let s = &source.container_images[i];
        let mut j: usize = 0;
        let ghost dv = dest.container_images.deep_view();
        assert(dv.skip(0) =~= dv);
        let mut found: Option<usize> = None;
        while j < dest.container_images.len()
            invariant_except_break
                found is None,
            invariant
                j <= dest.container_images@.len(),
                dv == dest.container_images.deep_view(),
                first_image(dv, s.name@) == first_image(dv.skip(j as int), s.name@),
            ensures
                match found {
                    Some(k) => k < dest.container_images@.len() && first_image(dv, s.name@) == Some(
                        dest.container_images@[k as int]@,
                    ),
                    None => first_image(dv, s.name@) is None,
                },
            decreases dest.container_images@.len() - j,
        {
            assert(dv.skip(j as int).drop_first() =~= dv.skip(j + 1));
            assert(dv.skip(j as int)[0] == dest.container_images@[j as int]@);
            if str_eq(dest.container_images[j].name.as_str(), s.name.as_str()) {
                found = Some(j);
                break;
            }
            j += 1;
        }
        if let Some(k) = found {
            let d = &dest.container_images[k];
            if !str_eq(s.tag.as_str(), d.tag.as_str()) {
                let c = ContainerImageDiff {
                    name: s.name.clone(),
                    source_tag: s.tag.clone(),
                    dest_tag: d.tag.clone(),
                    changed: true,
                };
                let ghost prev = images@;
                images.push(c);
                proof {
                    lemma_deep_view_push(prev, images@, c);
                }
            }
        }
        i += 1;
    }
    assert(si.take(i as int) =~= si);
    VersionDiff { component: owned(component), helm_charts: charts, container_images: images }
}

/// The differences of one component, as texts.
pub struct VersionDiffView {
    pub component: Seq<char>,
    pub helm_charts: Seq<ChartDiffView>,
    pub container_images: Seq<ImageDiffView>,
}

impl View for VersionDiff {
    type V = VersionDiffView;

    open spec fn view(&self) -> VersionDiffView {
        VersionDiffView {
            component: self.component@,
            helm_charts: self.helm_charts.deep_view(),
            container_images: self.container_images.deep_view(),
        }
    }
}

impl DeepView for VersionDiff {
    type V = VersionDiffView;

    open spec fn deep_view(&self) -> VersionDiffView {
        self@
    }
}

/// The differing versions of the components that both reports have, in
/// source order; components without differences are left out.
pub open spec fn version_diffs(
    source: Seq<(String, ComponentVersions)>,
    dest: Seq<(String, ComponentVersions)>,
) -> Seq<VersionDiffView>
    decreases source.len(),
{
    if source.len() == 0 {
        Seq::empty()
    } else {
        let r = version_diffs(source.drop_last(), dest);
        let (c, s) = source.last();
        match value_of(dest, c@) {
            Some(d) => {
                let cd = chart_diffs(s@.helm_charts, d@.helm_charts);
                let id = image_diffs(s@.container_images, d@.container_images);
                if cd.len() > 0 || id.len() > 0 {
                    r.push(VersionDiffView { component: c@, helm_charts: cd, container_images: id })
                } else {
                    r
                }
            },
            None => r,
        }
    }
}

/// Compare versions between two reports.
pub fn diff_versions(source: &VersionReport, dest: &VersionReport) -> (r: Vec<VersionDiff>)
    ensures
        r.deep_view() == version_diffs(source.components@, dest.components@),
{
    let comps = &source.components;
    let mut r: Vec<VersionDiff> = Vec::new();
    let mut i: usize = 0;
    while i < comps.len()
        invariant
            i <= comps@.len(),
            *comps == source.components,
            r.deep_view() == version_diffs(comps@.take(i as int), dest.components@),
        decreases comps@.len() - i,
    {
        assert(comps@.take(i + 1).drop_last() =~= comps@.take(i as int));
        assert(comps@.take(i + 1).last() == comps@[i as int]);
        match lookup(&dest.components, comps[i].0.as_str()) {
            Some(d) => {
                let diff = compare_components(comps[i].0.as_str(), &comps[i].1, d);
                if diff.helm_charts.len() > 0 || diff.container_images.len() > 0 {
                    let ghost prev = r@;
                    r.push(diff);
                    proof {
                        lemma_deep_view_push(prev, r@, diff);
                    }
                }
            },
            None => {},
        }
        i += 1;
    }
    assert(comps@.take(i as int) =~= comps@);
    r
}

// ---------------------------------------------------------------------------
// Rewriting chart versions
// ---------------------------------------------------------------------------

/// Replacing a value under a key keeps tags named.
pub proof fn lemma_with_key_value_tags(v: YamlView, key: Seq<char>, value: YamlView)
    requires
        tags_named(v),
        tags_named(value),
    ensures
        tags_named(with_key_value(v, key, value)),
    decreases v,
{
    match v {
        YamlView::Tagged(t, inner) => {
            lemma_with_key_value_tags(*inner, key, value);
        },
        YamlView::Mapping(es) => {
            lemma_entry_index(es, key);
            let r = with_entry_value(es, key, value);
            lemma_entries_tags_named(es);
            lemma_entries_tags_named(r);
            assert forall|j: int| 0 <= j < r.len() implies tags_named(#[trigger] r[j].0)
                && tags_named(r[j].1) by {
                assert(tags_named(es[j].0) && tags_named(es[j].1));
            }
        },
        _ => {},
    }
}

/// The version change of one listed chart: its name, current version (empty
/// when it is not text) and new version, when the item names a chart of
/// `charts` (the first of that name), has a version, and that differs.
pub open spec fn chart_item_update(item: YamlView, charts: Seq<ChartView>) -> Option<(Seq<char>, Seq<char>, Seq<char>)> {
    match key_text(item, "name"@) {
        Some(n) => match first_chart(charts, n) {
            Some(c) => match get_key(item, "version"@) {
                Some(v) => {
                    let cur = match text_of(v) {
                        Some(t) => t,
                        None => Seq::empty(),
                    };
                    if cur != c.version {
                        Some((n, cur, c.version))
                    } else {
                        None
                    }
                },
                None => None,
            },
            None => None,
        },
        None => None,
    }
}

/// A listed chart with its version updated.
pub open spec fn updated_chart_item(item: YamlView, charts: Seq<ChartView>) -> YamlView {
    match chart_item_update(item, charts) {
        Some((_, _, new)) => with_key_value(item, "version"@, YamlView::Text(new)),
        None => item,
    }
}

/// The change record of a chart version update in `file`.
pub open spec fn chart_change(file: Seq<char>, u: (Seq<char>, Seq<char>, Seq<char>)) -> FileVersionChangeView {
    FileVersionChangeView {
        file: file,
        kind: VersionChangeKind::HelmChart,
        name: u.0,
        before: u.1,
        after: u.2,
    }
}

/// The change records of a chart list, in order.
pub open spec fn chart_item_changes(items: Seq<YamlView>, charts: Seq<ChartView>, file: Seq<char>) -> Seq<FileVersionChangeView>
    decreases items.len(),
{
    if items.len() == 0 {
        Seq::empty()
    } else {
        let r = chart_item_changes(items.drop_last(), charts, file);
        match chart_item_update(items.last(), charts) {
            Some(u) => r.push(chart_change(file, u)),
            None => r,
        }
    }
}

/// A chart list with every listed chart updated, looking through tags.
pub open spec fn updated_chart_list(list: YamlView, charts: Seq<ChartView>) -> YamlView
    decreases list,
{
    match list {
        YamlView::Tagged(t, inner) => YamlView::Tagged(t, Box::new(updated_chart_list(*inner, charts))),
        YamlView::Sequence(items) => YamlView::Sequence(
            Seq::new(items.len(), |i: int| updated_chart_item(items[i], charts)),
        ),
        _ => list,
    }
}

/// A document with the chart list under `key` updated, looking through tags.
pub open spec fn updated_chart_doc(doc: YamlView, key: Seq<char>, charts: Seq<ChartView>) -> YamlView
    decreases doc,
{
    match doc {
        YamlView::Tagged(t, inner) => YamlView::Tagged(t, Box::new(updated_chart_doc(*inner, key, charts))),
        YamlView::Mapping(es) => match entry_index(es, key) {
            Some(i) => YamlView::Mapping(es.update(i, (es[i].0, updated_chart_list(es[i].1, charts)))),
            None => doc,
        },
        _ => doc,
    }
}

/// The change records of updating the chart list under `key`.
pub open spec fn chart_doc_changes(doc: YamlView, key: Seq<char>, charts: Seq<ChartView>, file: Seq<char>) -> Seq<FileVersionChangeView> {
    match get_key(doc, key) {
        Some(list) => match untag(list) {
            YamlView::Sequence(items) => chart_item_changes(items, charts, file),
            _ => Seq::empty(),
        },
        None => Seq::empty(),
    }
}

/// Updates the version of one listed chart, recording the change.
fn update_chart_item(
    item: &YamlValue,
    charts: &Vec<HelmChartVersion>,
    file: &str,
    changes: &mut Vec<FileVersionChange>,
) -> (r: YamlValue)
    ensures
        r@ == updated_chart_item(item@, charts.deep_view()),
        tags_named(item@) ==> tags_named(r@),
        final(changes).deep_view() == old(changes).deep_view() + match chart_item_update(
            item@,
            charts.deep_view(),
        ) {
            Some(u) => seq![chart_change(file@, u)],
            None => Seq::empty(),
        },
{
    let ghost start = changes.deep_view();
    if let Some(n) = get_text(item, "name") {
        if let Some(k) = find_chart(charts, n.as_str()) {
            if let Some(v) = get(item, "version") {
                let cur = match as_text(v) {
                    Some(t) => t.clone(),
                    None => String::new(),
                };
                if !str_eq(cur.as_str(), charts[k].version.as_str()) {
                    let c = FileVersionChange {
                        file: owned(file),
                        kind: VersionChangeKind::HelmChart,
                        name: n.clone(),
                        before: cur,
                        after: charts[k].version.clone(),
                    };
                    let ghost prev = changes@;
                    changes.push(c);
                    proof {
                        lemma_deep_view_push(prev, changes@, c);
                        if tags_named(item@) {
                            lemma_with_key_value_tags(
                                item@,
                                "version"@,
                                YamlView::Text(charts@[k as int].version@),
                            );
                        }
                    }
                    assert(changes.deep_view() =~= start + seq![c@]);
                    return set_key_value(item, "version", YamlValue::Text(charts[k].version.clone()));
                }
            }
        }
    }
    assert(changes.deep_view() =~= start + Seq::<FileVersionChangeView>::empty());
    item.copy()
}

/// Updates every chart of a list, looking through tags, recording changes.
fn update_chart_list(
    list: &YamlValue,
    charts: &Vec<HelmChartVersion>,
    file: &str,
    changes: &mut Vec<FileVersionChange>,
) -> (r: YamlValue)
    ensures
        r@ == updated_chart_list(list@, charts.deep_view()),
        tags_named(list@) ==> tags_named(r@),
        final(changes).deep_view() == old(changes).deep_view() + match untag(list@) {
            YamlView::Sequence(items) => chart_item_changes(items, charts.deep_view(), file@),
            _ => Seq::empty(),
        },
    decreases list,
{
    let ghost start = changes.deep_view();
    match list {
        YamlValue::Tagged(t, inner) => {
            assert(list@ == YamlView::Tagged(t@, Box::new((**inner)@)));
            let x = update_chart_list(inner, charts, file, changes);
            let r = YamlValue::Tagged(t.clone(), Box::new(x));
            assert(r@ == YamlView::Tagged(t@, Box::new(x@)));
            proof {
                lemma_tags_tagged(t@, (**inner)@);
                lemma_tags_tagged(t@, x@);
            }
            r
        },
        YamlValue::Sequence(items) => {
            let ghost iv = items_view(items@);
            proof {
                lemma_items_view(items@);
            }
            let ghost target = Seq::new(iv.len(), |i: int| updated_chart_item(iv[i], charts.deep_view()));
            let mut out: Vec<YamlValue> = Vec::new();
            let mut i: usize = 0;
            while i < items.len()
                invariant
                    i <= items@.len(),
                    *list == YamlValue::Sequence(*items),
                    iv == items_view(items@),
                    iv.len() == items@.len(),
                    forall|k: int| 0 <= k < items@.len() ==> #[trigger] iv[k] == items@[k]@,
                    target == Seq::new(iv.len(), |i: int| updated_chart_item(iv[i], charts.deep_view())),
                    items_view(out@) == target.take(i as int),
                    tags_named(list@) ==> forall|k: int| 0 <= k < i ==> #[trigger] tags_named(target[k]),
                    changes.deep_view() == start + chart_item_changes(iv.take(i as int), charts.deep_view(), file@),
                decreases items@.len() - i,
            {
                assert(iv.take(i + 1).drop_last() =~= iv.take(i as int));
                assert(iv.take(i + 1).last() == iv[i as int]);
                proof {
                    assert(list@ == YamlView::Sequence(iv));
                    if tags_named(list@) {
                        lemma_tags_item(iv, i as int);
                    }
                }
                let x = update_chart_item(&items[i], charts, file, changes);
                let ghost prev = out@;
                out.push(x);
                assert(out@.drop_last() =~= prev);
                i += 1;
                assert(items_view(out@) =~= target.take(i as int));
                assert(changes.deep_view() =~= start + chart_item_changes(iv.take(i as int), charts.deep_view(), file@));
            }
            assert(target.take(i as int) =~= target);
            assert(iv.take(i as int) =~= iv);
            proof {
                lemma_items_tags_named(target);
            }
            YamlValue::Sequence(out)
        },
        _ => {
            assert(changes.deep_view() =~= start + Seq::<FileVersionChangeView>::empty());
            list.copy()
        },
    }
}

/// Updates the chart list under `key` of a document, recording changes.
fn update_chart_doc(
    doc: &YamlValue,
    key: &str,
    charts: &Vec<HelmChartVersion>,
    file: &str,
    changes: &mut Vec<FileVersionChange>,
) -> (r: YamlValue)
    ensures
        r@ == updated_chart_doc(doc@, key@, charts.deep_view()),
        tags_named(doc@) ==> tags_named(r@),
        final(changes).deep_view() == old(changes).deep_view() + chart_doc_changes(
            doc@,
            key@,
            charts.deep_view(),
            file@,
        ),
    decreases doc,
{
    let ghost start = changes.deep_view();
    match doc {
        YamlValue::Tagged(t, inner) => {
            assert(doc@ == YamlView::Tagged(t@, Box::new((**inner)@)));
            let x = update_chart_doc(inner, key, charts, file, changes);
            let r = YamlValue::Tagged(t.clone(), Box::new(x));
            assert(r@ == YamlView::Tagged(t@, Box::new(x@)));
            proof {
                lemma_tags_tagged(t@, (**inner)@);
                lemma_tags_tagged(t@, x@);
            }
            r
        },
        YamlValue::Mapping(entries) => {
            proof {
                lemma_entries_view(entries@);
                lemma_entry_index(entries_view(entries@), key@);
            }
            match entry_position(entries, key) {
                Some(i) => {
                    let updated = update_chart_list(&entries[i].1, charts, file, changes);
                    let out = crate::yaml::entries_with_value(entries, i, updated);
                    let r = YamlValue::Mapping(out);
                    proof {
                        let es = entries_view(entries@);
                        let res = entries_view(out@);
                        if tags_named(doc@) {
                            lemma_entries_tags_named(es);
                            lemma_entries_tags_named(res);
                            assert forall|j: int| 0 <= j < res.len() implies tags_named(#[trigger] res[j].0)
                                && tags_named(res[j].1) by {
                                assert(tags_named(es[j].0) && tags_named(es[j].1));
                            }
                        }
                    }
                    r
                },
                None => {
                    assert(changes.deep_view() =~= start + Seq::<FileVersionChangeView>::empty());
                    doc.copy()
                },
            }
        },
        _ => {
            assert(changes.deep_view() =~= start + Seq::<FileVersionChangeView>::empty());
            doc.copy()
        },
    }
}

// ---------------------------------------------------------------------------
// Rewriting files
// ---------------------------------------------------------------------------

/// What rewriting a file gives: the version changes made, and the document
/// written out by the YAML library (`None` when that fails).
pub struct YamlUpdate {
    pub changes: Vec<FileVersionChange>,
    pub rendered: Option<String>,
}

/// The update's rendering is the library's rendering of `doc`.
pub open spec fn rendered_as(u: YamlUpdate, doc: YamlView) -> bool {
    match u.rendered {
        Some(t) => yaml_rendering(doc) == Some(t@),
        None => yaml_rendering(doc) is None,
    }
}

/// Renders a document that has named tags.
fn render(doc: &YamlValue) -> (r: Option<String>)
    requires
        tags_named(doc@),
    ensures
        match r {
            Some(t) => yaml_rendering(doc@) == Some(t@),
            None => yaml_rendering(doc@) is None,
        },
{
    render_yaml(doc)
}

/// Rewrites the versions of the charts listed under `key` of a document.
fn update_chart_file(content: &str, key: &str, file: &str, charts: &Vec<HelmChartVersion>) -> (r: Result<
    YamlUpdate,
    PromrailError,
>)
    ensures
        match yaml_document(content@) {
            None => r matches Err(PromrailError::Yaml(_)),
            Some(d) => r matches Ok(u) && u.changes.deep_view() == chart_doc_changes(
                d,
                key@,
                charts.deep_view(),
                file@,
            ) && rendered_as(u, updated_chart_doc(d, key@, charts.deep_view())),
        },
{
    match parse_yaml(content) {
        Err(msg) => Err(PromrailError::Yaml(msg)),
        Ok(doc) => {
            let mut changes: Vec<FileVersionChange> = Vec::new();
            let updated = update_chart_doc(&doc, key, charts, file, &mut changes);
            assert(changes.deep_view() =~= chart_doc_changes(doc@, key@, charts.deep_view(), file@));
            let rendered = render(&updated);
            Ok(YamlUpdate { changes, rendered })
        },
    }
}

/// Update helm chart versions of a kustomization's `helmCharts`.
pub fn update_kustomization_versions(content: &str, charts: &Vec<HelmChartVersion>) -> (r: Result<
    YamlUpdate,
    PromrailError,
>)
    ensures
        match yaml_document(content@) {
            None => r matches Err(PromrailError::Yaml(_)),
            Some(d) => r matches Ok(u) && u.changes.deep_view() == chart_doc_changes(
                d,
                "helmCharts"@,
                charts.deep_view(),
                "kustomization.yaml"@,
            ) && rendered_as(u, updated_chart_doc(d, "helmCharts"@, charts.deep_view())),
        },
{
    update_chart_file(content, "helmCharts", "kustomization.yaml", charts)
}

/// Update chart dependency versions of a `Chart.yaml`.
pub fn update_chart_versions(content: &str, charts: &Vec<HelmChartVersion>) -> (r: Result<
    YamlUpdate,
    PromrailError,
>)
    ensures
        match yaml_document(content@) {
            None => r matches Err(PromrailError::Yaml(_)),
            Some(d) => r matches Ok(u) && u.changes.deep_view() == chart_doc_changes(
                d,
                "dependencies"@,
                charts.deep_view(),
                "Chart.yaml"@,
            ) && rendered_as(u, updated_chart_doc(d, "dependencies"@, charts.deep_view())),
        },
{
    update_chart_file(content, "dependencies", "Chart.yaml", charts)
}

/// Update container image tags of a values file.
pub fn update_values_images(content: &str, images: &Vec<ContainerImageVersion>) -> (r: Result<
    YamlUpdate,
    PromrailError,
>)
    ensures
        match yaml_document(content@) {
            None => r matches Err(PromrailError::Yaml(_)),
            Some(d) => r matches Ok(u) && u.changes.deep_view() == image_changes(
                d,
                images.deep_view(),
            ) && rendered_as(u, images_updated(d, images.deep_view())),
        },
{
    match parse_yaml(content) {
        Err(msg) => Err(PromrailError::Yaml(msg)),
        Ok(doc) => {
            let mut changes: Vec<FileVersionChange> = Vec::new();
            let updated = update_images(&doc, images, &mut changes);
            assert(changes.deep_view() =~= image_changes(doc@, images.deep_view()));
            let rendered = render(&updated);
            Ok(YamlUpdate { changes, rendered })
        },
    }
}

/// Whether applying a report first compares it with the destination's
/// versions: when conflicts are checked and the run is not a dry run.
pub fn checks_conflicts(options: &ApplyOptions) -> (r: bool)
    ensures
        r == (options.check_conflicts && !options.dry_run),
{
    options.check_conflicts && !options.dry_run
}

/// Whether applying a report stops before touching any file: conflicts
/// were checked and some were found.
pub fn stops_on_conflicts(options: &ApplyOptions, conflicts_found: bool) -> (r: bool)
    ensures
        r == (options.check_conflicts && !options.dry_run && conflicts_found),
{
    checks_conflicts(options) && conflicts_found
}

/// Whether applying a report records a snapshot: when one is asked for and
/// the run is not a dry run.
pub fn takes_snapshot(options: &ApplyOptions) -> (r: bool)
    ensures
        r == (options.create_snapshot && !options.dry_run),
{
    options.create_snapshot && !options.dry_run
}

/// What applying does with a file once its version changes are known.
pub enum FileStep {
    /// Nothing changes: the file is left alone and not reported.
    Skip,
    /// The changes are reported (and recorded in a snapshot); the file is
    /// written when `write` holds.
    Record { write: bool },
}

/// What applying does with a file that `n_changes` version changes touch:
/// a file without changes is skipped; otherwise the changes are recorded,
/// and the file is written unless the run is a dry run.
pub fn file_step(options: &ApplyOptions, n_changes: usize) -> (r: FileStep)
    ensures
        n_changes == 0 ==> r is Skip,
        n_changes > 0 ==> r == (FileStep::Record { write: !options.dry_run }),
{
    if n_changes == 0 {
        FileStep::Skip
    } else {
        FileStep::Record { write: !options.dry_run }
    }
}

/// The files of a component directory that applying its versions rewrites,
/// in order: its kustomization and chart when it has charts, its values
/// file when it has images.
pub open spec fn files_to_rewrite(has_charts: bool, has_images: bool) -> Seq<(Seq<char>, VersionFileKind)> {
    (if has_charts {
        seq![("kustomization.yaml"@, VersionFileKind::Kustomization), ("Chart.yaml"@, VersionFileKind::Chart)]
    } else {
        Seq::empty()
    }) + (if has_images {
        seq![("values.yaml"@, VersionFileKind::Values)]
    } else {
        Seq::empty()
    })
}

/// The files of a component directory that applying its versions rewrites.
pub fn files_to_update(versions: &ComponentVersions) -> (r: Vec<(&'static str, VersionFileKind)>)
    ensures
        r@.map_values(|p: (&'static str, VersionFileKind)| (p.0@, p.1)) == files_to_rewrite(
            versions.helm_charts@.len() > 0,
            versions.container_images@.len() > 0,
        ),
{
    let mut r: Vec<(&'static str, VersionFileKind)> = Vec::new();
    if versions.helm_charts.len() > 0 {
        r.push(("kustomization.yaml", VersionFileKind::Kustomization));
        r.push(("Chart.yaml", VersionFileKind::Chart));
    }
    if versions.container_images.len() > 0 {
        r.push(("values.yaml", VersionFileKind::Values));
    }
    assert(r@.map_values(|p: (&'static str, VersionFileKind)| (p.0@, p.1)) =~= files_to_rewrite(
        versions.helm_charts@.len() > 0,
        versions.container_images@.len() > 0,
    ));
    r
}

/// Whether a failure of the formatting-preserving writer only says that
/// its Python module is missing (the document is then written plainly).
pub fn is_missing_ruamel(message: &str) -> (r: bool)
    ensures
        r == (contains_sub(message@, "No module named 'ruamel'"@) || contains_sub(
            message@,
            "No module named \"ruamel\""@,
        )),
{
    let m = chars_of(message);
    let a = chars_of("No module named 'ruamel'");
    let b = chars_of("No module named \"ruamel\"");
    contains(m.as_slice(), a.as_slice()) || contains(m.as_slice(), b.as_slice())
}

/// The version changes of a snapshot, as texts.
pub open spec fn changes_view(vc: Seq<(String, Vec<FileVersionChange>)>) -> Seq<(Seq<char>, Seq<FileVersionChangeView>)> {
    Seq::new(vc.len(), |i: int| (vc[i].0@, vc[i].1.deep_view()))
}

/// The version changes after `changes` of `component` are recorded: they
/// extend the component's list, or start one at the end.
pub open spec fn with_changes(vc: Seq<(String, Vec<FileVersionChange>)>, component: Seq<char>, changes: Seq<FileVersionChangeView>) -> Seq<(Seq<char>, Seq<FileVersionChangeView>)> {
    let v = changes_view(vc);
    match crate::keyed::key_index(vc, component) {
        Some(i) => v.update(i, (v[i].0, v[i].1 + changes)),
        None => v.push((component, changes)),
    }
}

/// Records the version changes that rewriting a file of a component made.
pub fn record_version_changes(
    snapshot: &mut Snapshot,
    component: &str,
    changes: &Vec<FileVersionChange>,
    file_path: &str,
)
    ensures
        changes_view(final(snapshot).version_changes@) == with_changes(
            old(snapshot).version_changes@,
            component@,
            changes.deep_view(),
        ),
        views(final(snapshot).files_modified@) == views(old(snapshot).files_modified@).push(file_path@),
        final(snapshot).id == old(snapshot).id,
        final(snapshot).created_at == old(snapshot).created_at,
        final(snapshot).source_path == old(snapshot).source_path,
        final(snapshot).dest_path == old(snapshot).dest_path,
        final(snapshot).filters == old(snapshot).filters,
        final(snapshot).status == old(snapshot).status,
{
    let ghost v0 = changes_view(snapshot.version_changes@);
    let mut copies: Vec<FileVersionChange> = Vec::new();
    let mut i: usize = 0;
    while i < changes.len()
        invariant
            i <= changes@.len(),
            copies.deep_view() == changes.deep_view().take(i as int),
        decreases changes@.len() - i,
    {
        let c = FileVersionChange {
            file: changes[i].file.clone(),
            kind: changes[i].kind,
            name: changes[i].name.clone(),
            before: changes[i].before.clone(),
            after: changes[i].after.clone(),
        };
        let ghost prev = copies@;
        copies.push(c);
        proof {
            lemma_deep_view_push(prev, copies@, c);
        }
        i += 1;
        assert(copies.deep_view() =~= changes.deep_view().take(i as int));
    }
    assert(changes.deep_view().take(i as int) =~= changes.deep_view());
    match crate::keyed::find_key(&snapshot.version_changes, component) {
        Some(k) => {
            let mut list: Vec<FileVersionChange> = Vec::new();
            let existing = &snapshot.version_changes[k].1;
            let mut j: usize = 0;
            while j < existing.len()
                invariant
                    j <= existing@.len(),
                    list.deep_view() == existing.deep_view().take(j as int),
                decreases existing@.len() - j,
            {
                let c = FileVersionChange {
                    file: existing[j].file.clone(),
                    kind: existing[j].kind,
                    name: existing[j].name.clone(),
                    before: existing[j].before.clone(),
                    after: existing[j].after.clone(),
                };
                let ghost prev = list@;
                list.push(c);
                proof {
                    lemma_deep_view_push(prev, list@, c);
                }
                j += 1;
                assert(list.deep_view() =~= existing.deep_view().take(j as int));
            }
            assert(existing.deep_view().take(j as int) =~= existing.deep_view());
            let ghost before_append = list.deep_view();
            let mut m: usize = 0;
            while m < copies.len()
                invariant
                    m <= copies@.len(),
                    list.deep_view() == before_append + copies.deep_view().take(m as int),
                decreases copies@.len() - m,
            {
                let c = FileVersionChange {
                    file: copies[m].file.clone(),
                    kind: copies[m].kind,
                    name: copies[m].name.clone(),
                    before: copies[m].before.clone(),
                    after: copies[m].after.clone(),
                };
                let ghost prev = list@;
                list.push(c);
                proof {
                    lemma_deep_view_push(prev, list@, c);
                }
                m += 1;
                assert(list.deep_view() =~= before_append + copies.deep_view().take(m as int));
            }
            assert(copies.deep_view().take(m as int) =~= copies.deep_view());
            let key = snapshot.version_changes[k].0.clone();
            snapshot.version_changes.set(k, (key, list));
        },
        None => {
            snapshot.version_changes.push((owned(component), copies));
        },
    }
    assert(changes_view(snapshot.version_changes@) =~= with_changes(
        old(snapshot).version_changes@,
        component@,
        changes.deep_view(),
    ));
    let ghost f0 = snapshot.files_modified@;
    snapshot.files_modified.push(owned(file_path));
    assert(views(snapshot.files_modified@) =~= views(f0).push(file_path@));
}

/// An item of a sequence with named tags has named tags.
proof fn lemma_tags_item(iv: Seq<YamlView>, i: int)
    requires
        tags_named(YamlView::Sequence(iv)),
        0 <= i < iv.len(),
    ensures
        tags_named(iv[i]),
{
    lemma_items_tags_named(iv);
}

/// A tagged value has named tags when its tag is named and its value has.
pub proof fn lemma_tags_tagged(t: Seq<char>, inner: YamlView)
    ensures
        tags_named(YamlView::Tagged(t, Box::new(inner))) == (t.len() > 0 && tags_named(inner)),
{
    reveal_with_fuel(tags_named, 2);
}

// ---------------------------------------------------------------------------
// Rewriting image tags
// ---------------------------------------------------------------------------

/// The tag change of a mapping with a `repository` and a `tag` (both text):
/// the repository, current tag and new tag, when an image of that name (the
/// first) has another tag.
pub open spec fn own_tag_update(es: Seq<(YamlView, YamlView)>, images: Seq<ImageView>) -> Option<(Seq<char>, Seq<char>, Seq<char>)> {
    match (entry_value(es, "repository"@), entry_value(es, "tag"@)) {
        (Some(r), Some(t)) => match (text_of(r), text_of(t)) {
            (Some(repo), Some(cur)) => match first_image(images, repo) {
                Some(img) => if cur != img.tag {
                    Some((repo, cur, img.tag))
                } else {
                    None
                },
                None => None,
            },
            _ => None,
        },
        _ => None,
    }
}

/// Where the new tag of a mapping goes: the `tag` entry, with its new text.
pub open spec fn tag_override(es: Seq<(YamlView, YamlView)>, images: Seq<ImageView>) -> Option<(int, Seq<char>)> {
    match own_tag_update(es, images) {
        Some(u) => match entry_index(es, "tag"@) {
            Some(i) => Some((i, u.2)),
            None => None,
        },
        None => None,
    }
}

/// A value with the tags of the named images updated, depth first.
pub open spec fn images_updated(v: YamlView, images: Seq<ImageView>) -> YamlView
    decreases v,
{
    match v {
        YamlView::Mapping(es) => YamlView::Mapping(
            updated_image_entries(es, images, tag_override(es, images)),
        ),
        YamlView::Sequence(items) => YamlView::Sequence(updated_image_items(items, images)),
        _ => v,
    }
}

/// Mapping entries with tags updated; the entry at the override gets the
/// new tag.
pub open spec fn updated_image_entries(es: Seq<(YamlView, YamlView)>, images: Seq<ImageView>, ov: Option<(int, Seq<char>)>) -> Seq<(YamlView, YamlView)>
    decreases es,
{
    if es.len() == 0 {
        Seq::empty()
    } else {
        updated_image_entries(es.drop_last(), images, ov).push(
            (
                es.last().0,
                match ov {
                    Some(p) => if p.0 == es.len() - 1 {
                        YamlView::Text(p.1)
                    } else {
                        images_updated(es.last().1, images)
                    },
                    None => images_updated(es.last().1, images),
                },
            ),
        )
    }
}

/// Sequence items with tags updated.
pub open spec fn updated_image_items(items: Seq<YamlView>, images: Seq<ImageView>) -> Seq<YamlView>
    decreases items,
{
    if items.len() == 0 {
        Seq::empty()
    } else {
        updated_image_items(items.drop_last(), images).push(images_updated(items.last(), images))
    }
}

/// The change record of an image tag update.
pub open spec fn image_change(u: (Seq<char>, Seq<char>, Seq<char>)) -> FileVersionChangeView {
    FileVersionChangeView {
        file: "values.yaml"@,
        kind: VersionChangeKind::ContainerImage,
        name: u.0,
        before: u.1,
        after: u.2,
    }
}

/// The change record of a mapping's own tag, if any.
pub open spec fn own_changes(es: Seq<(YamlView, YamlView)>, images: Seq<ImageView>) -> Seq<FileVersionChangeView> {
    match own_tag_update(es, images) {
        Some(u) => seq![image_change(u)],
        None => Seq::empty(),
    }
}

/// The change records of updating the tags in a value, depth first.
pub open spec fn image_changes(v: YamlView, images: Seq<ImageView>) -> Seq<FileVersionChangeView>
    decreases v,
{
    match v {
        YamlView::Mapping(es) => own_changes(es, images) + entry_image_changes(
            es,
            images,
            tag_override(es, images),
        ),
        YamlView::Sequence(items) => item_image_changes(items, images),
        _ => Seq::empty(),
    }
}

/// The change records of mapping values, the overridden one left out.
pub open spec fn entry_image_changes(es: Seq<(YamlView, YamlView)>, images: Seq<ImageView>, ov: Option<(int, Seq<char>)>) -> Seq<FileVersionChangeView>
    decreases es,
{
    if es.len() == 0 {
        Seq::empty()
    } else {
        entry_image_changes(es.drop_last(), images, ov) + if ov is Some && (ov->0).0 == es.len()
            - 1 {
            Seq::empty()
        } else {
            image_changes(es.last().1, images)
        }
    }
}

/// The change records of sequence items.
pub open spec fn item_image_changes(items: Seq<YamlView>, images: Seq<ImageView>) -> Seq<FileVersionChangeView>
    decreases items,
{
    if items.len() == 0 {
        Seq::empty()
    } else {
        item_image_changes(items.drop_last(), images) + image_changes(items.last(), images)
    }
}

/// The tag change of a mapping and where its new tag goes.
fn own_tag_change(entries: &Vec<(YamlValue, YamlValue)>, images: &Vec<ContainerImageVersion>) -> (r: Option<(usize, FileVersionChange)>)
    ensures
        match tag_override(entries_view(entries@), images.deep_view()) {
            Some(p) => r matches Some(x) && x.0 == p.0 && x.0 < entries@.len() && x.1@
                == image_change(own_tag_update(entries_view(entries@), images.deep_view())->0),
            None => r is None,
        },
        own_tag_update(entries_view(entries@), images.deep_view()) is Some ==> tag_override(
            entries_view(entries@),
            images.deep_view(),
        ) is Some,
{
    proof {
        lemma_entries_view(entries@);
        lemma_entry_index(entries_view(entries@), "tag"@);
    }
    if let (Some(r), Some(t)) = (entry_lookup(entries, "repository"), entry_lookup(entries, "tag")) {
        if let (Some(repo), Some(cur)) = (as_text(r), as_text(t)) {
            if let Some(k) = find_image(images, repo.as_str()) {
                if !str_eq(cur.as_str(), images[k].tag.as_str()) {
                    if let Some(i) = entry_position(entries, "tag") {
                        let c = FileVersionChange {
                            file: owned("values.yaml"),
                            kind: VersionChangeKind::ContainerImage,
                            name: repo.clone(),
                            before: cur.clone(),
                            after: images[k].tag.clone(),
                        };
                        return Some((i, c));
                    }
                }
            }
        }
    }
    None
}

/// Updates the tags of the named images in a value, recording changes.
fn update_images(value: &YamlValue, images: &Vec<ContainerImageVersion>, changes: &mut Vec<FileVersionChange>) -> (r: YamlValue)
    ensures
        r@ == images_updated(value@, images.deep_view()),
        tags_named(value@) ==> tags_named(r@),
        final(changes).deep_view() == old(changes).deep_view() + image_changes(
            value@,
            images.deep_view(),
        ),
    decreases value,
{
    let ghost start = changes.deep_view();
    let ghost imgs = images.deep_view();
    match value {
        YamlValue::Mapping(entries) => {
            let ghost ev = entries_view(entries@);
            proof {
                lemma_entries_view(entries@);
                lemma_entries_tags_named(ev);
            }
            let own = own_tag_change(entries, images);
            let ghost ov = tag_override(ev, imgs);
            let mut at: usize = entries.len();
            let mut new_tag = String::new();
            match own {
                Some((i, c)) => {
                    at = i;
                    new_tag = c.after.clone();
                    let ghost prev = changes@;
                    changes.push(c);
                    proof {
                        lemma_deep_view_push(prev, changes@, c);
                    }
                },
                None => {},
            }
            let ghost after_own = changes.deep_view();
            assert(after_own =~= start + own_changes(ev, imgs));
            let mut out: Vec<(YamlValue, YamlValue)> = Vec::new();
            let mut i: usize = 0;
            while i < entries.len()
                invariant
                    i <= entries@.len(),
                    *value == YamlValue::Mapping(*entries),
                    ev == entries_view(entries@),
                    ev.len() == entries@.len(),
                    forall|k: int| 0 <= k < entries@.len() ==> #[trigger] ev[k] == (
                        entries@[k].0@,
                        entries@[k].1@,
                    ),
                    imgs == images.deep_view(),
                    ov == tag_override(ev, imgs),
                    match ov {
                        Some(p) => at == p.0 && new_tag@ == p.1,
                        None => at == entries@.len(),
                    },
                    entries_view(out@) == updated_image_entries(ev.take(i as int), imgs, ov),
                    changes.deep_view() == after_own + entry_image_changes(ev.take(i as int), imgs, ov),
                    tags_named(value@) ==> entries_tags_named(entries_view(out@)),
                decreases entries@.len() - i,
            {
                assert(ev.take(i + 1).drop_last() =~= ev.take(i as int));
                assert(ev.take(i + 1).last() == ev[i as int]);
                proof {
                    if tags_named(value@) {
                        assert(value@ == YamlView::Mapping(ev));
                        assert(entries_tags_named(ev));
                        crate::ext::lemma_entry_tags(ev, i as int);
                    }
                }
                let k = entries[i].0.copy();
                let v = if i == at {
                    YamlValue::Text(new_tag.clone())
                } else {
                    proof {
                        assert(decreases_to!(*value => value->Mapping_0));
                        assert(decreases_to!(value->Mapping_0 => value->Mapping_0@));
                        assert(decreases_to!(value->Mapping_0@ => value->Mapping_0@[i as int]));
                        assert(decreases_to!(value->Mapping_0@[i as int] => value->Mapping_0@[i as int].1));
                    }
                    update_images(&entries[i].1, images, changes)
                };
                let ghost prev = out@;
                let ghost kv = (k@, v@);
                out.push((k, v));
                assert(out@.drop_last() =~= prev);
                assert(entries_view(out@) == entries_view(prev).push(kv));
                assert(entries_view(prev).push(kv).drop_last() =~= entries_view(prev));
                assert(tags_named(value@) ==> tags_named(kv.0));
                assert(tags_named(value@) ==> tags_named(kv.1));
                i += 1;
                assert(changes.deep_view() =~= after_own + entry_image_changes(ev.take(i as int), imgs, ov));
            }
            assert(ev.take(i as int) =~= ev);
            YamlValue::Mapping(out)
        },
        YamlValue::Sequence(items) => {
            let ghost iv = items_view(items@);
            proof {
                lemma_items_view(items@);
                lemma_items_tags_named(iv);
            }
            let mut out: Vec<YamlValue> = Vec::new();
            let mut i: usize = 0;
            while i < items.len()
                invariant
                    i <= items@.len(),
                    *value == YamlValue::Sequence(*items),
                    iv == items_view(items@),
                    iv.len() == items@.len(),
                    forall|k: int| 0 <= k < items@.len() ==> #[trigger] iv[k] == items@[k]@,
                    imgs == images.deep_view(),
                    items_view(out@) == updated_image_items(iv.take(i as int), imgs),
                    changes.deep_view() == start + item_image_changes(iv.take(i as int), imgs),
                    tags_named(value@) ==> items_tags_named(items_view(out@)),
                decreases items@.len() - i,
            {
                assert(iv.take(i + 1).drop_last() =~= iv.take(i as int));
                assert(iv.take(i + 1).last() == iv[i as int]);
                proof {
                    if tags_named(value@) {
                        assert(value@ == YamlView::Sequence(iv));
                        assert(items_tags_named(iv));
                        crate::ext::lemma_item_tags(iv, i as int);
                    }
                    assert(decreases_to!(*value => value->Sequence_0));
                    assert(decreases_to!(value->Sequence_0 => value->Sequence_0@));
                    assert(decreases_to!(value->Sequence_0@ => value->Sequence_0@[i as int]));
                }
                let x = update_images(&items[i], images, changes);
                let ghost prev = out@;
                let ghost xv = x@;
                out.push(x);
                assert(out@.drop_last() =~= prev);
                assert(items_view(out@) == items_view(prev).push(xv));
                assert(items_view(prev).push(xv).drop_last() =~= items_view(prev));
                i += 1;
                assert(changes.deep_view() =~= start + item_image_changes(iv.take(i as int), imgs));
            }
            assert(iv.take(i as int) =~= iv);
            YamlValue::Sequence(out)
        },
        _ => {
            assert(changes.deep_view() =~= start + image_changes(value@, imgs));
            value.copy()
        },
    }
}

} // verus!
