//! Version merging for multi-source promotion: versions of the same
//! component from several sources are merged according to the rules.
use vstd::prelude::*;
use crate::config::{PromotionAction, PromotionRules, pairs_view, top_priority_index};
use crate::error::PromrailError;
use crate::text::{
    cat, cat_views, contains_string, decimal, decimal_string, join, join_strings, owned, str_eq,
    views,
};
use crate::versions::models::{
    ChartView, ComponentVersions, ComponentView, ContainerImageVersion, HelmChartVersion,
    ImageView, VersionReport, lemma_deep_view_push,
};

verus! {

// ---------------------------------------------------------------------------
// Merging one component
// ---------------------------------------------------------------------------

/// The versions that sources give for a component, as texts.
pub open spec fn sources_view(s: Seq<(String, ComponentVersions)>) -> Seq<(Seq<char>, ComponentView)> {
    Seq::new(s.len(), |i: int| (s[i].0@, s[i].1@))
}

/// The names of the sources.
pub open spec fn source_names(s: Seq<(Seq<char>, ComponentView)>) -> Seq<Seq<char>> {
    s.map_values(|p: (Seq<char>, ComponentView)| p.0)
}

/// Every chart of the sources with its source's name, source by source.
pub open spec fn source_charts(s: Seq<(Seq<char>, ComponentView)>) -> Seq<(Seq<char>, ChartView)>
    decreases s.len(),
{
    if s.len() == 0 {
        Seq::empty()
    } else {
        source_charts(s.drop_last()) + Seq::new(
            s.last().1.helm_charts.len(),
            |j: int| (s.last().0, s.last().1.helm_charts[j]),
        )
    }
}

/// Every image of the sources with its source's name, source by source.
pub open spec fn source_images(s: Seq<(Seq<char>, ComponentView)>) -> Seq<(Seq<char>, ImageView)>
    decreases s.len(),
{
    if s.len() == 0 {
        Seq::empty()
    } else {
        source_images(s.drop_last()) + Seq::new(
            s.last().1.container_images.len(),
            |j: int| (s.last().0, s.last().1.container_images[j]),
        )
    }
}

/// The chart names, each once, in the order they are first met.
pub open spec fn chart_names_seen(p: Seq<(Seq<char>, ChartView)>) -> Seq<Seq<char>>
    decreases p.len(),
{
    if p.len() == 0 {
        Seq::empty()
    } else {
        let r = chart_names_seen(p.drop_last());
        if r.contains(p.last().1.name) {
            r
        } else {
            r.push(p.last().1.name)
        }
    }
}

/// The image names, each once, in the order they are first met.
pub open spec fn image_names_seen(p: Seq<(Seq<char>, ImageView)>) -> Seq<Seq<char>>
    decreases p.len(),
{
    if p.len() == 0 {
        Seq::empty()
    } else {
        let r = image_names_seen(p.drop_last());
        if r.contains(p.last().1.name) {
            r
        } else {
            r.push(p.last().1.name)
        }
    }
}

/// The `(source, version)` pairs of the chart `name`, in order.
pub open spec fn chart_candidates(p: Seq<(Seq<char>, ChartView)>, name: Seq<char>) -> Seq<(Seq<char>, Seq<char>)>
    decreases p.len(),
{
    if p.len() == 0 {
        Seq::empty()
    } else {
        let r = chart_candidates(p.drop_last(), name);
        if p.last().1.name == name {
            r.push((p.last().0, p.last().1.version))
        } else {
            r
        }
    }
}

/// The `(source, tag)` pairs of the image `name`, in order.
pub open spec fn image_candidates(p: Seq<(Seq<char>, ImageView)>, name: Seq<char>) -> Seq<(Seq<char>, Seq<char>)>
    decreases p.len(),
{
    if p.len() == 0 {
        Seq::empty()
    } else {
        let r = image_candidates(p.drop_last(), name);
        if p.last().1.name == name {
            r.push((p.last().0, p.last().1.tag))
        } else {
            r
        }
    }
}

/// The first chart called `name`.
pub open spec fn first_chart(charts: Seq<ChartView>, name: Seq<char>) -> Option<ChartView>
    decreases charts.len(),
{
    if charts.len() == 0 {
        None
    } else if charts[0].name == name {
        Some(charts[0])
    } else {
        first_chart(charts.drop_first(), name)
    }
}

/// The first image called `name`.
pub open spec fn first_image(images: Seq<ImageView>, name: Seq<char>) -> Option<ImageView>
    decreases images.len(),
{
    if images.len() == 0 {
        None
    } else if images[0].name == name {
        Some(images[0])
    } else {
        first_image(images.drop_first(), name)
    }
}

/// The chart `name` of the first source called `source` that has one.
pub open spec fn chart_from(s: Seq<(Seq<char>, ComponentView)>, source: Seq<char>, name: Seq<char>) -> Option<ChartView>
    decreases s.len(),
{
    if s.len() == 0 {
        None
    } else if s[0].0 == source && first_chart(s[0].1.helm_charts, name) is Some {
        first_chart(s[0].1.helm_charts, name)
    } else {
        chart_from(s.drop_first(), source, name)
    }
}

/// The image `name` of the first source called `source` that has one.
pub open spec fn image_from(s: Seq<(Seq<char>, ComponentView)>, source: Seq<char>, name: Seq<char>) -> Option<ImageView>
    decreases s.len(),
{
    if s.len() == 0 {
        None
    } else if s[0].0 == source && first_image(s[0].1.container_images, name) is Some {
        first_image(s[0].1.container_images, name)
    } else {
        image_from(s.drop_first(), source, name)
    }
}

/// The merged chart `name`: the chart of the source whose version the rules
/// choose, at that version.
pub open spec fn merged_chart(rules: PromotionRules, s: Seq<(Seq<char>, ComponentView)>, name: Seq<char>) -> Option<ChartView> {
    let cands = chart_candidates(source_charts(s), name);
    match rules.chosen_version(cands) {
        None => None,
        Some(i) => match chart_from(s, cands[i].0, name) {
            Some(c) => Some(
                ChartView {
                    name: c.name,
                    version: cands[i].1,
                    repository: c.repository,
                    source_file: c.source_file,
                },
            ),
            None => None,
        },
    }
}

/// The merged image `name`: the image of the source whose tag the rules
/// choose, at that tag.
pub open spec fn merged_image(rules: PromotionRules, s: Seq<(Seq<char>, ComponentView)>, name: Seq<char>) -> Option<ImageView> {
    let cands = image_candidates(source_images(s), name);
    match rules.chosen_version(cands) {
        None => None,
        Some(i) => match image_from(s, cands[i].0, name) {
            Some(c) => Some(
                ImageView {
                    name: c.name,
                    tag: cands[i].1,
                    source_file: c.source_file,
                    json_path: c.json_path,
                },
            ),
            None => None,
        },
    }
}

/// The merged charts of the given names, in order.
pub open spec fn merged_charts(rules: PromotionRules, s: Seq<(Seq<char>, ComponentView)>, names: Seq<Seq<char>>) -> Seq<ChartView>
    decreases names.len(),
{
    if names.len() == 0 {
        Seq::empty()
    } else {
        let r = merged_charts(rules, s, names.drop_last());
        match merged_chart(rules, s, names.last()) {
            Some(c) => r.push(c),
            None => r,
        }
    }
}

/// The merged images of the given names, in order.
pub open spec fn merged_images(rules: PromotionRules, s: Seq<(Seq<char>, ComponentView)>, names: Seq<Seq<char>>) -> Seq<ImageView>
    decreases names.len(),
{
    if names.len() == 0 {
        Seq::empty()
    } else {
        let r = merged_images(rules, s, names.drop_last());
        match merged_image(rules, s, names.last()) {
            Some(c) => r.push(c),
            None => r,
        }
    }
}

/// The merge of a component's versions from several sources: a single
/// source as it is; otherwise each chart and image at the version the rules
/// choose, attributed to the source of highest priority.
pub open spec fn merged_component(rules: PromotionRules, path: Seq<char>, s: Seq<(Seq<char>, ComponentView)>) -> Option<(Seq<char>, ComponentView)> {
    if s.len() == 0 {
        None
    } else if s.len() == 1 {
        Some(s[0])
    } else {
        Some(
            (
                s[top_priority_index(rules, source_names(s))].0,
                ComponentView {
                    path: path,
                    helm_charts: merged_charts(rules, s, chart_names_seen(source_charts(s))),
                    container_images: merged_images(rules, s, image_names_seen(source_images(s))),
                },
            ),
        )
    }
}

/// Charts with their sources, as texts.
pub open spec fn chart_pairs_view(v: Seq<(String, HelmChartVersion)>) -> Seq<(Seq<char>, ChartView)> {
    Seq::new(v.len(), |i: int| (v[i].0@, v[i].1@))
}

/// Images with their sources, as texts.
pub open spec fn image_pairs_view(v: Seq<(String, ContainerImageVersion)>) -> Seq<(Seq<char>, ImageView)> {
    Seq::new(v.len(), |i: int| (v[i].0@, v[i].1@))
}

/// Every chart of the sources with its source's name.
fn collect_charts(sources: &Vec<(String, ComponentVersions)>) -> (r: Vec<(String, HelmChartVersion)>)
    ensures
        chart_pairs_view(r@) == source_charts(sources_view(sources@)),
{
    let ghost sv = sources_view(sources@);
    let mut r: Vec<(String, HelmChartVersion)> = Vec::new();
    let mut i: usize = 0;
    while i < sources.len()
        invariant
            i <= sources@.len(),
            sv == sources_view(sources@),
            chart_pairs_view(r@) == source_charts(sv.take(i as int)),
        decreases sources@.len() - i,
    {
        assert(sv.take(i + 1).drop_last() =~= sv.take(i as int));
        let ghost start = chart_pairs_view(r@);
        let charts = &sources[i].1.helm_charts;
        let mut j: usize = 0;
        while j < charts.len()
            invariant
                j <= charts@.len(),
                i < sources@.len(),
                *charts == sources@[i as int].1.helm_charts,
                chart_pairs_view(r@) == start + Seq::new(
                    j as nat,
                    |k: int| (sources@[i as int].0@, charts@[k]@),
                ),
            decreases charts@.len() - j,
        {
            let ghost prev = r@;
            r.push((sources[i].0.clone(), charts[j].copy()));
            assert(chart_pairs_view(r@) =~= chart_pairs_view(prev).push(
                (sources@[i as int].0@, charts@[j as int]@),
            ));
            j += 1;
            assert(chart_pairs_view(r@) =~= start + Seq::new(
                j as nat,
                |k: int| (sources@[i as int].0@, charts@[k]@),
            ));
        }
        assert(sv.take(i + 1).last() == sv[i as int]);
        assert(Seq::new(j as nat, |k: int| (sources@[i as int].0@, charts@[k]@)) =~= Seq::new(
            sv[i as int].1.helm_charts.len(),
            |k: int| (sv[i as int].0, sv[i as int].1.helm_charts[k]),
        ));
        i += 1;
    }
    assert(sv.take(i as int) =~= sv);
    r
}

/// Every image of the sources with its source's name.
fn collect_images(sources: &Vec<(String, ComponentVersions)>) -> (r: Vec<(String, ContainerImageVersion)>)
    ensures
        image_pairs_view(r@) == source_images(sources_view(sources@)),
{
    let ghost sv = sources_view(sources@);
    let mut r: Vec<(String, ContainerImageVersion)> = Vec::new();
    let mut i: usize = 0;
    while i < sources.len()
        invariant
            i <= sources@.len(),
            sv == sources_view(sources@),
            image_pairs_view(r@) == source_images(sv.take(i as int)),
        decreases sources@.len() - i,
    {
        assert(sv.take(i + 1).drop_last() =~= sv.take(i as int));
        let ghost start = image_pairs_view(r@);
        let images = &sources[i].1.container_images;
        let mut j: usize = 0;
        while j < images.len()
            invariant
                j <= images@.len(),
                i < sources@.len(),
                *images == sources@[i as int].1.container_images,
                image_pairs_view(r@) == start + Seq::new(
                    j as nat,
                    |k: int| (sources@[i as int].0@, images@[k]@),
                ),
            decreases images@.len() - j,
        {
            let ghost prev = r@;
            r.push((sources[i].0.clone(), images[j].copy()));
            assert(image_pairs_view(r@) =~= image_pairs_view(prev).push(
                (sources@[i as int].0@, images@[j as int]@),
            ));
            j += 1;
            assert(image_pairs_view(r@) =~= start + Seq::new(
                j as nat,
                |k: int| (sources@[i as int].0@, images@[k]@),
            ));
        }
        assert(sv.take(i + 1).last() == sv[i as int]);
        assert(Seq::new(j as nat, |k: int| (sources@[i as int].0@, images@[k]@)) =~= Seq::new(
            sv[i as int].1.container_images.len(),
            |k: int| (sv[i as int].0, sv[i as int].1.container_images[k]),
        ));
        i += 1;
    }
    assert(sv.take(i as int) =~= sv);
    r
}

/// The chart names, each once, in the order they are first met.
fn chart_names(pairs: &Vec<(String, HelmChartVersion)>) -> (r: Vec<String>)
    ensures
        views(r@) == chart_names_seen(chart_pairs_view(pairs@)),
{
    let ghost pv = chart_pairs_view(pairs@);
    let mut r: Vec<String> = Vec::new();
    let mut i: usize = 0;
    while i < pairs.len()
        invariant
            i <= pairs@.len(),
            pv == chart_pairs_view(pairs@),
            views(r@) == chart_names_seen(pv.take(i as int)),
        decreases pairs@.len() - i,
    {
        assert(pv.take(i + 1).drop_last() =~= pv.take(i as int));
        assert(pv.take(i + 1).last() == pv[i as int]);
        if !contains_string(&r, pairs[i].1.name.as_str()) {
            let ghost prev = r@;
            r.push(pairs[i].1.name.clone());
            assert(views(r@) =~= views(prev).push(pv[i as int].1.name));
        }
        i += 1;
    }
    assert(pv.take(i as int) =~= pv);
    r
}

/// The image names, each once, in the order they are first met.
fn image_names(pairs: &Vec<(String, ContainerImageVersion)>) -> (r: Vec<String>)
    ensures
        views(r@) == image_names_seen(image_pairs_view(pairs@)),
{
    let ghost pv = image_pairs_view(pairs@);
    let mut r: Vec<String> = Vec::new();
    let mut i: usize = 0;
    while i < pairs.len()
        invariant
            i <= pairs@.len(),
            pv == image_pairs_view(pairs@),
            views(r@) == image_names_seen(pv.take(i as int)),
        decreases pairs@.len() - i,
    {
        assert(pv.take(i + 1).drop_last() =~= pv.take(i as int));
        assert(pv.take(i + 1).last() == pv[i as int]);
        if !contains_string(&r, pairs[i].1.name.as_str()) {
            let ghost prev = r@;
            r.push(pairs[i].1.name.clone());
            assert(views(r@) =~= views(prev).push(pv[i as int].1.name));
        }
        i += 1;
    }
    assert(pv.take(i as int) =~= pv);
    r
}

/// The `(source, version)` pairs of the chart `name`.
fn chart_versions_of(pairs: &Vec<(String, HelmChartVersion)>, name: &str) -> (r: Vec<(String, String)>)
    ensures
        pairs_view(r@) == chart_candidates(chart_pairs_view(pairs@), name@),
{
    let ghost pv = chart_pairs_view(pairs@);
    let mut r: Vec<(String, String)> = Vec::new();
    let mut i: usize = 0;
    while i < pairs.len()
        invariant
            i <= pairs@.len(),
            pv == chart_pairs_view(pairs@),
            pairs_view(r@) == chart_candidates(pv.take(i as int), name@),
        decreases pairs@.len() - i,
    {
        assert(pv.take(i + 1).drop_last() =~= pv.take(i as int));
        assert(pv.take(i + 1).last() == pv[i as int]);
        if str_eq(pairs[i].1.name.as_str(), name) {
            let ghost prev = r@;
            r.push((pairs[i].0.clone(), pairs[i].1.version.clone()));
            assert(pairs_view(r@) =~= pairs_view(prev).push((pv[i as int].0, pv[i as int].1.version)));
        }
        i += 1;
    }
    assert(pv.take(i as int) =~= pv);
    r
}

/// The `(source, tag)` pairs of the image `name`.
fn image_tags_of(pairs: &Vec<(String, ContainerImageVersion)>, name: &str) -> (r: Vec<(String, String)>)
    ensures
        pairs_view(r@) == image_candidates(image_pairs_view(pairs@), name@),
{
    let ghost pv = image_pairs_view(pairs@);
    let mut r: Vec<(String, String)> = Vec::new();
    let mut i: usize = 0;
    while i < pairs.len()
        invariant
            i <= pairs@.len(),
            pv == image_pairs_view(pairs@),
            pairs_view(r@) == image_candidates(pv.take(i as int), name@),
        decreases pairs@.len() - i,
    {
        assert(pv.take(i + 1).drop_last() =~= pv.take(i as int));
        assert(pv.take(i + 1).last() == pv[i as int]);
        if str_eq(pairs[i].1.name.as_str(), name) {
            let ghost prev = r@;
            r.push((pairs[i].0.clone(), pairs[i].1.tag.clone()));
            assert(pairs_view(r@) =~= pairs_view(prev).push((pv[i as int].0, pv[i as int].1.tag)));
        }
        i += 1;
    }
    assert(pv.take(i as int) =~= pv);
    r
}

/// Position of the first chart called `name`.
pub fn find_chart(charts: &Vec<HelmChartVersion>, name: &str) -> (r: Option<usize>)
    ensures
        match r {
            Some(j) => j < charts@.len() && first_chart(charts.deep_view(), name@) == Some(
                charts@[j as int]@,
            ),
            None => first_chart(charts.deep_view(), name@) is None,
        },
{
    let ghost cv = charts.deep_view();
    let mut j: usize = 0;
    assert(cv.skip(0) =~= cv);
    while j < charts.len()
        invariant
            j <= charts@.len(),
            cv == charts.deep_view(),
            first_chart(cv, name@) == first_chart(cv.skip(j as int), name@),
        decreases charts@.len() - j,
    {
        assert(cv.skip(j as int).drop_first() =~= cv.skip(j + 1));
        assert(cv.skip(j as int)[0] == charts@[j as int]@);
        if str_eq(charts[j].name.as_str(), name) {
            return Some(j);
        }
        j += 1;
    }
    None
}

/// Position of the first image called `name`.
pub fn find_image(images: &Vec<ContainerImageVersion>, name: &str) -> (r: Option<usize>)
    ensures
        match r {
            Some(j) => j < images@.len() && first_image(images.deep_view(), name@) == Some(
                images@[j as int]@,
            ),
            None => first_image(images.deep_view(), name@) is None,
        },
{
    let ghost cv = images.deep_view();
    let mut j: usize = 0;
    assert(cv.skip(0) =~= cv);
    while j < images.len()
        invariant
            j <= images@.len(),
            cv == images.deep_view(),
            first_image(cv, name@) == first_image(cv.skip(j as int), name@),
        decreases images@.len() - j,
    {
        assert(cv.skip(j as int).drop_first() =~= cv.skip(j + 1));
        assert(cv.skip(j as int)[0] == images@[j as int]@);
        if str_eq(images[j].name.as_str(), name) {
            return Some(j);
        }
        j += 1;
    }
    None
}

/// The merged chart `name`, if the chosen source has it.
fn merge_chart(
    rules: &PromotionRules,
    sources: &Vec<(String, ComponentVersions)>,
    pairs: &Vec<(String, HelmChartVersion)>,
    name: &str,
) -> (r: Option<HelmChartVersion>)
    requires
        chart_pairs_view(pairs@) == source_charts(sources_view(sources@)),
    ensures
        match merged_chart(*rules, sources_view(sources@), name@) {
            Some(c) => r matches Some(x) && x@ == c,
            None => r is None,
        },
{
    let ghost sv = sources_view(sources@);
    let cands = chart_versions_of(pairs, name);
    let ghost cs = chart_candidates(source_charts(sv), name@);
    assert(pairs_view(cands@) == cs);
    let cslice = cands.as_slice();
    assert(cslice@ == cands@);
    match rules.resolve_version_conflict(cslice) {
        None => {
            assert(rules.chosen_version(cs) is None);
            None
        },
        Some((source, version)) => {
            let ghost ci = rules.chosen_version(cs).unwrap();
            proof {
                rules.lemma_chosen_version_bounds(cs);
            }
            assert(source@ == cs[ci].0 && version@ == cs[ci].1);
            let mut k: usize = 0;
            assert(sv.skip(0) =~= sv);
            while k < sources.len()
                invariant
                    k <= sources@.len(),
                    sv == sources_view(sources@),
                    0 <= ci < cs.len(),
                    rules.chosen_version(cs) == Some(ci),
                    cs == chart_candidates(source_charts(sv), name@),
                    source@ == cs[ci].0,
                    version@ == cs[ci].1,
                    chart_from(sv, source@, name@) == chart_from(sv.skip(k as int), source@, name@),
                decreases sources@.len() - k,
            {
                assert(sv.skip(k as int).drop_first() =~= sv.skip(k + 1));
                assert(sv.skip(k as int)[0] == sv[k as int]);
                if str_eq(sources[k].0.as_str(), source.as_str()) {
                    match find_chart(&sources[k].1.helm_charts, name) {
                        Some(j) => {
                            let mut c = sources[k].1.helm_charts[j].copy();
                            c.version = version;
                            return Some(c);
                        },
                        None => {},
                    }
                }
                k += 1;
            }
            None
        },
    }
}

/// The merged image `name`, if the chosen source has it.
fn merge_image(
    rules: &PromotionRules,
    sources: &Vec<(String, ComponentVersions)>,
    pairs: &Vec<(String, ContainerImageVersion)>,
    name: &str,
) -> (r: Option<ContainerImageVersion>)
    requires
        image_pairs_view(pairs@) == source_images(sources_view(sources@)),
    ensures
        match merged_image(*rules, sources_view(sources@), name@) {
            Some(c) => r matches Some(x) && x@ == c,
            None => r is None,
        },
{
    let ghost sv = sources_view(sources@);
    let cands = image_tags_of(pairs, name);
    let ghost cs = image_candidates(source_images(sv), name@);
    assert(pairs_view(cands@) == cs);
    let cslice = cands.as_slice();
    assert(cslice@ == cands@);
    match rules.resolve_version_conflict(cslice) {
        None => {
            assert(rules.chosen_version(cs) is None);
            None
        },
        Some((source, tag)) => {
            let ghost ci = rules.chosen_version(cs).unwrap();
            proof {
                rules.lemma_chosen_version_bounds(cs);
            }
            assert(source@ == cs[ci].0 && tag@ == cs[ci].1);
            let mut k: usize = 0;
            assert(sv.skip(0) =~= sv);
            while k < sources.len()
                invariant
                    k <= sources@.len(),
                    sv == sources_view(sources@),
                    0 <= ci < cs.len(),
                    rules.chosen_version(cs) == Some(ci),
                    cs == image_candidates(source_images(sv), name@),
                    source@ == cs[ci].0,
                    tag@ == cs[ci].1,
                    image_from(sv, source@, name@) == image_from(sv.skip(k as int), source@, name@),
                decreases sources@.len() - k,
            {
                assert(sv.skip(k as int).drop_first() =~= sv.skip(k + 1));
                assert(sv.skip(k as int)[0] == sv[k as int]);
                if str_eq(sources[k].0.as_str(), source.as_str()) {
                    match find_image(&sources[k].1.container_images, name) {
                        Some(j) => {
                            let mut c = sources[k].1.container_images[j].copy();
                            c.tag = tag;
                            return Some(c);
                        },
                        None => {},
                    }
                }
                k += 1;
            }
            None
        },
    }
}

/// Merge versions for a single component from multiple sources.
pub fn merge_component_versions(
    component_path: &str,
    sources: &Vec<(String, ComponentVersions)>,
    rules: &PromotionRules,
) -> (r: Option<(String, ComponentVersions)>)
    ensures
        match merged_component(*rules, component_path@, sources_view(sources@)) {
            Some((s, c)) => r matches Some(x) && x.0@ == s && x.1@ == c,
            None => r is None,
        },
{
    let ghost sv = sources_view(sources@);
    if sources.len() == 0 {
        return None;
    }
    if sources.len() == 1 {
        return Some((sources[0].0.clone(), sources[0].1.copy()));
    }
    let chart_pairs = collect_charts(sources);
    let names = chart_names(&chart_pairs);
    let mut charts: Vec<HelmChartVersion> = Vec::new();
    let mut i: usize = 0;
    while i < names.len()
        invariant
            i <= names@.len(),
            sv == sources_view(sources@),
            chart_pairs_view(chart_pairs@) == source_charts(sv),
            views(names@) == chart_names_seen(source_charts(sv)),
            charts.deep_view() == merged_charts(*rules, sv, views(names@).take(i as int)),
        decreases names@.len() - i,
    {
        assert(views(names@).take(i + 1).drop_last() =~= views(names@).take(i as int));
        assert(views(names@).take(i + 1).last() == names@[i as int]@);
        match merge_chart(rules, sources, &chart_pairs, names[i].as_str()) {
            Some(c) => {
                let ghost prev = charts@;
                charts.push(c);
                proof {
                    lemma_deep_view_push(prev, charts@, c);
                }
            },
            None => {},
        }
        i += 1;
    }
    assert(views(names@).take(i as int) =~= views(names@));
    let image_pairs = collect_images(sources);
    let inames = image_names(&image_pairs);
    let mut images: Vec<ContainerImageVersion> = Vec::new();
    let mut k: usize = 0;
    while k < inames.len()
        invariant
            k <= inames@.len(),
            sv == sources_view(sources@),
            image_pairs_view(image_pairs@) == source_images(sv),
            views(inames@) == image_names_seen(source_images(sv)),
            images.deep_view() == merged_images(*rules, sv, views(inames@).take(k as int)),
        decreases inames@.len() - k,
    {
        assert(views(inames@).take(k + 1).drop_last() =~= views(inames@).take(k as int));
        assert(views(inames@).take(k + 1).last() == inames@[k as int]@);
        match merge_image(rules, sources, &image_pairs, inames[k].as_str()) {
            Some(c) => {
                let ghost prev = images@;
                images.push(c);
                proof {
                    lemma_deep_view_push(prev, images@, c);
                }
            },
            None => {},
        }
        k += 1;
    }
    assert(views(inames@).take(k as int) =~= views(inames@));
    let ghost names_s = source_names(sv);
    let mut best: usize = 0;
    let mut j: usize = 1;
    while j < sources.len()
        invariant
            1 <= j <= sources@.len(),
            sv == sources_view(sources@),
            names_s == source_names(sv),
            best < j,
            best == top_priority_index(*rules, names_s.take(j as int)),
        decreases sources@.len() - j,
    {
        assert(names_s.take(j + 1).drop_last() =~= names_s.take(j as int));
        if !(rules.get_source_priority(sources[best].0.as_str()) > rules.get_source_priority(
            sources[j].0.as_str(),
        )) {
            best = j;
        }
        j += 1;
    }
    assert(names_s.take(j as int) =~= names_s);
    let merged = ComponentVersions {
        path: crate::text::owned(component_path),
        helm_charts: charts,
        container_images: images,
    };
    Some((sources[best].0.clone(), merged))
}

// ---------------------------------------------------------------------------
// Merging reports
// ---------------------------------------------------------------------------

/// Merge result with decisions and warnings.
pub struct MergeResult {
    pub report: VersionReport,
    pub decisions: Vec<MergeDecision>,
    pub warnings: Vec<String>,
    pub removed: Vec<RemovedComponent>,
}

/// Decision made for a component during merge.
pub struct MergeDecision {
    pub component: String,
    pub action: PromotionAction,
    pub source: Option<String>,
    pub reason: String,
}

/// Component removed due to rules.
pub struct RemovedComponent {
    pub component: String,
    pub source: String,
    pub reason: String,
}

/// A merge decision, as texts.
pub struct DecisionView {
    pub component: Seq<char>,
    pub action: PromotionAction,
    pub source: Option<Seq<char>>,
    pub reason: Seq<char>,
}

/// A removed component, as texts.
pub struct RemovedView {
    pub component: Seq<char>,
    pub source: Seq<char>,
    pub reason: Seq<char>,
}

impl View for MergeDecision {
    type V = DecisionView;

    open spec fn view(&self) -> DecisionView {
        DecisionView {
            component: self.component@,
            action: self.action,
            source: match self.source {
                Some(s) => Some(s@),
                None => None,
            },
            reason: self.reason@,
        }
    }
}

impl DeepView for MergeDecision {
    type V = DecisionView;

    open spec fn deep_view(&self) -> DecisionView {
        self@
    }
}

impl View for RemovedComponent {
    type V = RemovedView;

    open spec fn view(&self) -> RemovedView {
        RemovedView { component: self.component@, source: self.source@, reason: self.reason@ }
    }
}

impl DeepView for RemovedComponent {
    type V = RemovedView;

    open spec fn deep_view(&self) -> RemovedView {
        self@
    }
}

/// A component's versions from one source.
pub type SourcedVersions = (Seq<char>, ComponentView);

/// The components of one source's report that the source includes, each
/// with the source's name.
pub open spec fn included_of(
    rules: PromotionRules,
    source: Seq<char>,
    comps: Seq<(String, ComponentVersions)>,
) -> Seq<(Seq<char>, SourcedVersions)>
    decreases comps.len(),
{
    if comps.len() == 0 {
        Seq::empty()
    } else {
        let r = included_of(rules, source, comps.drop_last());
        if rules.includes(source, comps.last().0@) {
            r.push((comps.last().0@, (source, comps.last().1@)))
        } else {
            r
        }
    }
}

/// The included components of all sources, source by source.
pub open spec fn included_components(rules: PromotionRules, sources: Seq<(String, VersionReport)>) -> Seq<(Seq<char>, SourcedVersions)>
    decreases sources.len(),
{
    if sources.len() == 0 {
        Seq::empty()
    } else {
        included_components(rules, sources.drop_last()) + included_of(
            rules,
            sources.last().0@,
            sources.last().1.components@,
        )
    }
}

/// Position of the group of `key`.
pub open spec fn group_position(groups: Seq<(Seq<char>, Seq<SourcedVersions>)>, key: Seq<char>) -> Option<int>
    decreases groups.len(),
{
    if groups.len() == 0 {
        None
    } else if groups.last().0 == key {
        Some(groups.len() - 1)
    } else {
        group_position(groups.drop_last(), key)
    }
}

/// The versions of each component from every source that has it, grouped
/// by component in the order components are first met.
pub open spec fn grouped(entries: Seq<(Seq<char>, SourcedVersions)>) -> Seq<(Seq<char>, Seq<SourcedVersions>)>
    decreases entries.len(),
{
    if entries.len() == 0 {
        Seq::empty()
    } else {
        let g = grouped(entries.drop_last());
        let (key, v) = entries.last();
        match group_position(g, key) {
            Some(i) => g.update(i, (key, g[i].1.push(v))),
            None => g.push((key, seq![v])),
        }
    }
}

/// The position `group_position` gives holds the key; no group holds a key
/// it does not find.
proof fn lemma_group_position(groups: Seq<(Seq<char>, Seq<SourcedVersions>)>, key: Seq<char>)
    ensures
        group_position(groups, key) matches Some(i) ==> 0 <= i < groups.len() && groups[i].0 == key,
        group_position(groups, key) is None ==> forall|j: int| 0 <= j < groups.len() ==> groups[j].0 != key,
    decreases groups.len(),
{
    if groups.len() > 0 && groups.last().0 != key {
        lemma_group_position(groups.drop_last(), key);
        assert forall|j: int| 0 <= j < groups.len() - 1 implies groups[j] == groups.drop_last()[j] by {}
    }
}

/// Grouping keys each group by a different component.
proof fn lemma_grouped_distinct(entries: Seq<(Seq<char>, SourcedVersions)>)
    ensures
        forall|i: int, j: int| 0 <= i < j < grouped(entries).len() ==> grouped(entries)[i].0 != grouped(entries)[j].0,
    decreases entries.len(),
{
    if entries.len() > 0 {
        let g = grouped(entries.drop_last());
        let key = entries.last().0;
        lemma_grouped_distinct(entries.drop_last());
        lemma_group_position(g, key);
    }
}

/// Some group is keyed by `key`.
pub open spec fn key_in_groups(groups: Seq<(Seq<char>, Seq<SourcedVersions>)>, key: Seq<char>) -> bool {
    exists|j: int| 0 <= j < groups.len() && groups[j].0 == key
}

/// Merging keeps components in the order of distinct groups, each under a
/// key of some group, no two under one key.
proof fn lemma_merged_distinct(rules: PromotionRules, groups: Seq<(Seq<char>, Seq<SourcedVersions>)>)
    requires
        forall|i: int, j: int| 0 <= i < j < groups.len() ==> groups[i].0 != groups[j].0,
    ensures
        forall|i: int, j: int| 0 <= i < j < merged_of(rules, groups).len() ==> merged_of(rules, groups)[i].0
            != merged_of(rules, groups)[j].0,
        forall|k: int| 0 <= k < merged_of(rules, groups).len() ==> key_in_groups(
            groups,
            (#[trigger] merged_of(rules, groups)[k]).0,
        ),
    decreases groups.len(),
{
    if groups.len() > 0 {
        let d = groups.drop_last();
        assert forall|i: int, j: int| 0 <= i < j < d.len() implies d[i].0 != d[j].0 by {
            assert(d[i] == groups[i] && d[j] == groups[j]);
        }
        lemma_merged_distinct(rules, d);
        let r = merged_of(rules, d);
        let last = groups.len() - 1;
        assert forall|k: int| 0 <= k < r.len() implies r[k].0 != groups[last].0 by {
            assert(key_in_groups(d, r[k].0));
            let j = choose|j: int| 0 <= j < d.len() && d[j].0 == r[k].0;
            assert(d[j] == groups[j]);
        }
        let m = merged_of(rules, groups);
        assert forall|k: int| 0 <= k < m.len() implies key_in_groups(groups, (#[trigger] m[k]).0) by {
            if k < r.len() {
                assert(m[k] == r[k]);
                assert(key_in_groups(d, r[k].0));
                let j = choose|j: int| 0 <= j < d.len() && d[j].0 == r[k].0;
                assert(d[j] == groups[j]);
                assert(0 <= j < groups.len() && groups[j].0 == m[k].0);
            } else {
                assert(0 <= last < groups.len() && groups[last].0 == m[k].0);
            }
        }
    }
}

/// The message of a component that needs review.
pub open spec fn review_warning(component: Seq<char>) -> Seq<char> {
    "Component "@ + component + " requires review (action: review)"@
}

/// What merging the groups removes, in order.
pub open spec fn removed_of(rules: PromotionRules, groups: Seq<(Seq<char>, Seq<SourcedVersions>)>) -> Seq<RemovedView>
    decreases groups.len(),
{
    if groups.len() == 0 {
        Seq::empty()
    } else {
        let r = removed_of(rules, groups.drop_last());
        let (c, gs) = groups.last();
        if rules.action_for(c) == PromotionAction::Never {
            r.push(
                RemovedView {
                    component: c,
                    source: join(source_names(gs), ", "@),
                    reason: "Component marked as never promote"@,
                },
            )
        } else {
            r
        }
    }
}

/// The warnings of merging the groups, in order.
pub open spec fn warnings_of(rules: PromotionRules, groups: Seq<(Seq<char>, Seq<SourcedVersions>)>) -> Seq<Seq<char>>
    decreases groups.len(),
{
    if groups.len() == 0 {
        Seq::empty()
    } else {
        let r = warnings_of(rules, groups.drop_last());
        let c = groups.last().0;
        if rules.action_for(c) == PromotionAction::Review {
            r.push(review_warning(c))
        } else {
            r
        }
    }
}

/// The merged components of the groups that are promoted, in order.
pub open spec fn merged_of(rules: PromotionRules, groups: Seq<(Seq<char>, Seq<SourcedVersions>)>) -> Seq<(Seq<char>, ComponentView)>
    decreases groups.len(),
{
    if groups.len() == 0 {
        Seq::empty()
    } else {
        let r = merged_of(rules, groups.drop_last());
        let (c, gs) = groups.last();
        if rules.action_for(c) == PromotionAction::Never {
            r
        } else {
            match merged_component(rules, c, gs) {
                Some((_, v)) => r.push((c, v)),
                None => r,
            }
        }
    }
}

/// The decisions of merging the groups, in order.
pub open spec fn decisions_of(rules: PromotionRules, groups: Seq<(Seq<char>, Seq<SourcedVersions>)>) -> Seq<DecisionView>
    decreases groups.len(),
{
    if groups.len() == 0 {
        Seq::empty()
    } else {
        let r = decisions_of(rules, groups.drop_last());
        let (c, gs) = groups.last();
        if rules.action_for(c) == PromotionAction::Never {
            r
        } else {
            match merged_component(rules, c, gs) {
                Some((s, _)) => r.push(
                    DecisionView {
                        component: c,
                        action: rules.action_for(c),
                        source: Some(s),
                        reason: "Selected from source "@ + s,
                    },
                ),
                None => r,
            }
        }
    }
}

/// Groups as texts.
pub open spec fn groups_view(g: Seq<(String, Vec<(String, ComponentVersions)>)>) -> Seq<(Seq<char>, Seq<SourcedVersions>)> {
    Seq::new(g.len(), |i: int| (g[i].0@, sources_view(g[i].1@)))
}

/// Report entries as texts.
pub open spec fn components_view(c: Seq<(String, ComponentVersions)>) -> Seq<(Seq<char>, ComponentView)> {
    Seq::new(c.len(), |i: int| (c[i].0@, c[i].1@))
}

/// Copies of sourced versions.
fn copy_sourced(v: &Vec<(String, ComponentVersions)>) -> (r: Vec<(String, ComponentVersions)>)
    ensures
        sources_view(r@) == sources_view(v@),
{
    let mut r: Vec<(String, ComponentVersions)> = Vec::new();
    let mut i: usize = 0;
    while i < v.len()
        invariant
            i <= v@.len(),
            sources_view(r@) == sources_view(v@).take(i as int),
        decreases v@.len() - i,
    {
        let ghost prev = r@;
        r.push((v[i].0.clone(), v[i].1.copy()));
        assert(sources_view(r@) =~= sources_view(prev).push(sources_view(v@)[i as int]));
        i += 1;
        assert(sources_view(r@) =~= sources_view(v@).take(i as int));
    }
    assert(sources_view(v@).take(i as int) =~= sources_view(v@));
    r
}

/// Adds one source's versions of a component to the groups.
fn add_to_group(
    groups: &mut Vec<(String, Vec<(String, ComponentVersions)>)>,
    component: &String,
    source: &String,
    versions: &ComponentVersions,
)
    ensures
        groups_view(final(groups)@) == match group_position(groups_view(old(groups)@), component@) {
            Some(i) => groups_view(old(groups)@).update(
                i,
                (component@, groups_view(old(groups)@)[i].1.push((source@, versions@))),
            ),
            None => groups_view(old(groups)@).push((component@, seq![(source@, versions@)])),
        },
{
    let ghost g0 = groups_view(groups@);
    let mut i: usize = groups.len();
    assert(g0.take(g0.len() as int) =~= g0);
    while i > 0
        invariant
            i <= groups@.len(),
            g0 == groups_view(groups@),
            g0 == groups_view(old(groups)@),
            group_position(g0, component@) == group_position(g0.take(i as int), component@),
        decreases i,
    {
        assert(g0.take(i as int).drop_last() =~= g0.take(i - 1));
        assert(g0.take(i as int).last() == g0[i - 1]);
        if str_eq(groups[i - 1].0.as_str(), component.as_str()) {
            let mut members = copy_sourced(&groups[i - 1].1);
            let ghost m0 = members@;
            members.push((source.clone(), versions.copy()));
            assert(sources_view(members@) =~= sources_view(m0).push((source@, versions@)));
            assert(sources_view(m0) == g0[i - 1].1);
            let key = groups[i - 1].0.clone();
            assert(group_position(g0, component@) == Some(i - 1));
            groups.set(i - 1, (key, members));
            assert(groups_view(groups@) =~= g0.update(
                i - 1,
                (component@, g0[i - 1].1.push((source@, versions@))),
            ));
            return;
        }
        i -= 1;
    }
    let mut members: Vec<(String, ComponentVersions)> = Vec::new();
    members.push((source.clone(), versions.copy()));
    assert(sources_view(members@) =~= seq![(source@, versions@)]);
    assert(g0.take(0) =~= Seq::<(Seq<char>, Seq<SourcedVersions>)>::empty());
    groups.push((component.clone(), members));
    assert(groups_view(groups@) =~= g0.push((component@, seq![(source@, versions@)])));
}

/// Merge versions from multiple sources: each component that a source
/// includes is gathered with its versions from every such source; a
/// component never promoted is removed, one that needs review is warned
/// about, and the others are merged.
pub fn merge_versions(sources: &Vec<(String, VersionReport)>, rules: &PromotionRules) -> (r: Result<
    MergeResult,
    PromrailError,
>)
    ensures
        r matches Ok(m) && m.report.wf(),
        r matches Ok(m) && {
            let g = grouped(included_components(*rules, sources@));
            &&& m.report.source_path@ == "merged"@
            &&& components_view(m.report.components@) == merged_of(*rules, g)
            &&& m.decisions.deep_view() == decisions_of(*rules, g)
            &&& views(m.warnings@) == warnings_of(*rules, g)
            &&& m.removed.deep_view() == removed_of(*rules, g)
        },
{
    let mut merged = VersionReport::new("merged");
    merged.source_path = owned("merged");
    let mut groups: Vec<(String, Vec<(String, ComponentVersions)>)> = Vec::new();
    let ghost all = included_components(*rules, sources@);
    let mut si: usize = 0;
    while si < sources.len()
        invariant
            si <= sources@.len(),
            groups_view(groups@) == grouped(included_components(*rules, sources@.take(si as int))),
        decreases sources@.len() - si,
    {
        assert(sources@.take(si + 1).drop_last() =~= sources@.take(si as int));
        let ghost before = included_components(*rules, sources@.take(si as int));
        let source_name = &sources[si].0;
        let comps = &sources[si].1.components;
        let mut ci: usize = 0;
        while ci < comps.len()
            invariant
                ci <= comps@.len(),
                si < sources@.len(),
                *source_name == sources@[si as int].0,
                *comps == sources@[si as int].1.components,
                groups_view(groups@) == grouped(
                    before + included_of(*rules, source_name@, comps@.take(ci as int)),
                ),
            decreases comps@.len() - ci,
        {
            assert(comps@.take(ci + 1).drop_last() =~= comps@.take(ci as int));
            let component = &comps[ci].0;
            if rules.source_includes(source_name.as_str(), component.as_str()) {
                let ghost e = before + included_of(*rules, source_name@, comps@.take(ci as int));
                let ghost item = (component@, (source_name@, comps@[ci as int].1@));
                add_to_group(&mut groups, component, source_name, &comps[ci].1);
                assert(before + included_of(*rules, source_name@, comps@.take(ci + 1)) =~= e.push(
                    item,
                ));
                assert(e.push(item).drop_last() =~= e);
            } else {
                assert(before + included_of(*rules, source_name@, comps@.take(ci + 1)) =~= before
                    + included_of(*rules, source_name@, comps@.take(ci as int)));
            }
            ci += 1;
        }
        assert(comps@.take(ci as int) =~= comps@);
        assert(sources@.take(si + 1).last() == sources@[si as int]);
        si += 1;
    }
    assert(sources@.take(si as int) =~= sources@);
    let ghost g = groups_view(groups@);
    let mut decisions: Vec<MergeDecision> = Vec::new();
    let mut warnings: Vec<String> = Vec::new();
    let mut removed: Vec<RemovedComponent> = Vec::new();
    let mut k: usize = 0;
    assert(components_view(merged.components@) =~= merged_of(*rules, g.take(0)));
    while k < groups.len()
        invariant
            k <= groups@.len(),
            g == groups_view(groups@),
            merged.source_path@ == "merged"@,
            components_view(merged.components@) == merged_of(*rules, g.take(k as int)),
            decisions.deep_view() == decisions_of(*rules, g.take(k as int)),
            views(warnings@) == warnings_of(*rules, g.take(k as int)),
            removed.deep_view() == removed_of(*rules, g.take(k as int)),
        decreases groups@.len() - k,
    {
        assert(g.take(k + 1).drop_last() =~= g.take(k as int));
        assert(g.take(k + 1).last() == g[k as int]);
        let component = &groups[k].0;
        let members = &groups[k].1;
        let action = rules.get_action(component.as_str());
        match action {
            PromotionAction::Never => {
                let mut names: Vec<String> = Vec::new();
                let mut j: usize = 0;
                while j < members.len()
                    invariant
                        j <= members@.len(),
                        views(names@) == source_names(sources_view(members@)).take(j as int),
                    decreases members@.len() - j,
                {
                    let ghost prev = names@;
                    names.push(members[j].0.clone());
                    assert(views(names@) =~= views(prev).push(members@[j as int].0@));
                    j += 1;
                    assert(views(names@) =~= source_names(sources_view(members@)).take(j as int));
                }
                assert(source_names(sources_view(members@)).take(j as int) =~= source_names(
                    sources_view(members@),
                ));
                let joined = join_strings(&names, ", ");
                let rc = RemovedComponent {
                    component: component.clone(),
                    source: joined,
                    reason: owned("Component marked as never promote"),
                };
                let ghost prev = removed@;
                removed.push(rc);
                proof {
                    lemma_deep_view_push(prev, removed@, rc);
                }
                k += 1;
                continue;
            },
            PromotionAction::Review => {
                let w = cat(&["Component ", component.as_str(), " requires review (action: review)"]);
                proof {
                    reveal_with_fuel(cat_views, 4);
                }
                let ghost prev = warnings@;
                warnings.push(w);
                assert(views(warnings@) =~= views(prev).push(review_warning(component@)));
            },
            PromotionAction::Always => {},
        }
        match merge_component_versions(component.as_str(), members, rules) {
            Some((source, versions)) => {
                let ghost pc = merged.components@;
                merged.components.push((component.clone(), versions));
                assert(components_view(merged.components@) =~= components_view(pc).push(
                    (component@, versions@),
                ));
                let reason = cat(&["Selected from source ", source.as_str()]);
                proof {
                    reveal_with_fuel(cat_views, 3);
                }
                let d = MergeDecision {
                    component: component.clone(),
                    action,
                    source: Some(source),
                    reason,
                };
                let ghost prev = decisions@;
                decisions.push(d);
                proof {
                    lemma_deep_view_push(prev, decisions@, d);
                }
            },
            None => {},
        }
        k += 1;
    }
    assert(g.take(k as int) =~= g);
    proof {
        lemma_grouped_distinct(included_components(*rules, sources@));
        lemma_merged_distinct(*rules, g);
        assert forall|i: int, j: int| 0 <= i < j < merged.components@.len() implies merged.components@[i].0@
            != merged.components@[j].0@ by {
            assert(components_view(merged.components@)[i].0 == merged.components@[i].0@);
            assert(components_view(merged.components@)[j].0 == merged.components@[j].0@);
        }
    }
    Ok(MergeResult { report: merged, decisions, warnings, removed })
}

// ---------------------------------------------------------------------------
// Explaining a merge
// ---------------------------------------------------------------------------

/// The decisions that promote something (all but `never`), in order.
pub open spec fn applied_of(ds: Seq<DecisionView>) -> Seq<DecisionView>
    decreases ds.len(),
{
    if ds.len() == 0 {
        Seq::empty()
    } else {
        let r = applied_of(ds.drop_last());
        if ds.last().action != PromotionAction::Never {
            r.push(ds.last())
        } else {
            r
        }
    }
}

/// The decisions that need review, in order.
pub open spec fn review_of(ds: Seq<DecisionView>) -> Seq<DecisionView>
    decreases ds.len(),
{
    if ds.len() == 0 {
        Seq::empty()
    } else {
        let r = review_of(ds.drop_last());
        if ds.last().action == PromotionAction::Review {
            r.push(ds.last())
        } else {
            r
        }
    }
}

/// The line of an applied decision.
pub open spec fn applied_line(d: DecisionView) -> Seq<char> {
    "- "@ + d.component + " (from "@ + match d.source {
        Some(s) => s,
        None => "unknown"@,
    } + ", "@ + d.reason + ")\n"@
}

/// The lines of applied decisions.
pub open spec fn applied_lines(ds: Seq<DecisionView>) -> Seq<char>
    decreases ds.len(),
{
    if ds.len() == 0 {
        Seq::empty()
    } else {
        applied_lines(ds.drop_last()) + applied_line(ds.last())
    }
}

/// The lines of decisions that need review.
pub open spec fn review_lines(ds: Seq<DecisionView>) -> Seq<char>
    decreases ds.len(),
{
    if ds.len() == 0 {
        Seq::empty()
    } else {
        review_lines(ds.drop_last()) + "- "@ + ds.last().component
            + " (check before committing)\n"@
    }
}

/// The lines of removed components.
pub open spec fn removed_lines(rs: Seq<RemovedView>) -> Seq<char>
    decreases rs.len(),
{
    if rs.len() == 0 {
        Seq::empty()
    } else {
        removed_lines(rs.drop_last()) + "- "@ + rs.last().component + " ("@ + rs.last().reason
            + ")\n"@
    }
}

/// The lines of warnings.
pub open spec fn warning_lines(ws: Seq<Seq<char>>) -> Seq<char>
    decreases ws.len(),
{
    if ws.len() == 0 {
        Seq::empty()
    } else {
        warning_lines(ws.drop_last()) + "- "@ + ws.last() + "\n"@
    }
}

/// A titled section with its count and lines; nothing when it has no lines.
pub open spec fn section(title: Seq<char>, count: nat, rule: Seq<char>, lines: Seq<char>, tail: Seq<char>) -> Seq<char> {
    if count == 0 {
        Seq::empty()
    } else {
        title + " ("@ + decimal(count) + ")\n"@ + rule + "\n"@ + lines + tail
    }
}

/// The explanation of a merge.
pub open spec fn explanation(ds: Seq<DecisionView>, removed: Seq<RemovedView>, warnings: Seq<Seq<char>>) -> Seq<char> {
    let applied = applied_of(ds);
    let review = review_of(ds);
    "=== Merge Summary ===\n\n"@ + section(
        "Applied Changes"@,
        applied.len(),
        "-------------------"@,
        applied_lines(applied),
        "\n"@,
    ) + section(
        "Removed Changes"@,
        removed.len(),
        "-------------------"@,
        removed_lines(removed),
        "\n"@,
    ) + section(
        "Warnings"@,
        warnings.len(),
        "---------"@,
        warning_lines(warnings),
        "\n"@,
    ) + section(
        "Needs Review"@,
        review.len(),
        "-------------"@,
        review_lines(review),
        Seq::empty(),
    )
}

/// The header of a section: its title, count and rule.
fn section_head(title: &str, count: usize, rule: &str) -> (r: String)
    ensures
        r@ == title@ + " ("@ + decimal(count as nat) + ")\n"@ + rule@ + "\n"@,
{
    let n = decimal_string(count as u64);
    let r = cat(&[title, " (", n.as_str(), ")\n", rule, "\n"]);
    proof {
        reveal_with_fuel(cat_views, 7);
    }
    r
}

/// The lines of the applied decisions and of those needing review, with
/// their counts.
fn decision_lines(decisions: &Vec<MergeDecision>) -> (r: (String, usize, String, usize))
    ensures
        r.0@ == applied_lines(applied_of(decisions.deep_view())),
        r.1 == applied_of(decisions.deep_view()).len(),
        r.2@ == review_lines(review_of(decisions.deep_view())),
        r.3 == review_of(decisions.deep_view()).len(),
{
    let ghost ds = decisions.deep_view();
    let mut applied_text = String::new();
    let mut applied_count: usize = 0;
    let mut review_text = String::new();
    let mut review_count: usize = 0;
    let mut i: usize = 0;
    while i < decisions.len()
        invariant
            i <= decisions@.len(),
            ds == decisions.deep_view(),
            applied_count == applied_of(ds.take(i as int)).len(),
            applied_text@ == applied_lines(applied_of(ds.take(i as int))),
            review_count == review_of(ds.take(i as int)).len(),
            review_text@ == review_lines(review_of(ds.take(i as int))),
            applied_count <= i,
            review_count <= i,
        decreases decisions@.len() - i,
    {
        let ghost pa = applied_of(ds.take(i as int));
        let ghost pr = review_of(ds.take(i as int));
        assert(ds.take(i + 1).drop_last() =~= ds.take(i as int));
        assert(ds.take(i + 1).last() == decisions@[i as int]@);
        let d = &decisions[i];
        if d.action != PromotionAction::Never {
            let source = match &d.source {
                Some(s) => s.as_str(),
                None => "unknown",
            };
            let line = cat(
                &["- ", d.component.as_str(), " (from ", source, ", ", d.reason.as_str(), ")\n"],
            );
            proof {
                reveal_with_fuel(cat_views, 8);
            }
            assert(line@ == applied_line(d@));
            applied_text.append(line.as_str());
            applied_count += 1;
            assert(applied_of(ds.take(i + 1)) == pa.push(d@));
            assert(pa.push(d@).drop_last() =~= pa);
        }
        if d.action == PromotionAction::Review {
            let line = cat(&["- ", d.component.as_str(), " (check before committing)\n"]);
            proof {
                reveal_with_fuel(cat_views, 4);
            }
            review_text.append(line.as_str());
            review_count += 1;
            assert(review_of(ds.take(i + 1)) == pr.push(d@));
            assert(pr.push(d@).drop_last() =~= pr);
        }
        i += 1;
    }
    assert(ds.take(i as int) =~= ds);
    (applied_text, applied_count, review_text, review_count)
}

/// The lines of removed components.
fn removed_text_of(removed: &Vec<RemovedComponent>) -> (r: String)
    ensures
        r@ == removed_lines(removed.deep_view()),
{
    let ghost rs = removed.deep_view();
    let mut text = String::new();
    let mut j: usize = 0;
    while j < removed.len()
        invariant
            j <= removed@.len(),
            rs == removed.deep_view(),
            text@ == removed_lines(rs.take(j as int)),
        decreases removed@.len() - j,
    {
        assert(rs.take(j + 1).drop_last() =~= rs.take(j as int));
        assert(rs.take(j + 1).last() == removed@[j as int]@);
        let rc = &removed[j];
        let line = cat(&["- ", rc.component.as_str(), " (", rc.reason.as_str(), ")\n"]);
        proof {
            reveal_with_fuel(cat_views, 6);
        }
        text.append(line.as_str());
        j += 1;
    }
    assert(rs.take(j as int) =~= rs);
    text
}

/// The lines of warnings.
fn warning_text_of(warnings: &Vec<String>) -> (r: String)
    ensures
        r@ == warning_lines(views(warnings@)),
{
    let ghost ws = views(warnings@);
    let mut text = String::new();
    let mut k: usize = 0;
    while k < warnings.len()
        invariant
            k <= warnings@.len(),
            ws == views(warnings@),
            text@ == warning_lines(ws.take(k as int)),
        decreases warnings@.len() - k,
    {
        assert(ws.take(k + 1).drop_last() =~= ws.take(k as int));
        assert(ws.take(k + 1).last() == warnings@[k as int]@);
        let line = cat(&["- ", warnings[k].as_str(), "\n"]);
        proof {
            reveal_with_fuel(cat_views, 4);
        }
        text.append(line.as_str());
        k += 1;
    }
    assert(ws.take(k as int) =~= ws);
    text
}

/// A section: its header, lines and tail; nothing when the count is zero.
fn section_text(title: &str, count: usize, rule: &str, lines: &str, tail: &str) -> (r: String)
    ensures
        r@ == section(title@, count as nat, rule@, lines@, tail@),
{
    if count == 0 {
        return String::new();
    }
    let head = section_head(title, count, rule);
    let r = cat(&[head.as_str(), lines, tail]);
    proof {
        reveal_with_fuel(cat_views, 4);
    }
    r
}

/// Generate a human-readable explanation of merge decisions.
pub fn explain_merge(result: &MergeResult) -> (r: String)
    ensures
        r@ == explanation(result.decisions.deep_view(), result.removed.deep_view(), views(result.warnings@)),
{
    let (applied, applied_count, review, review_count) = decision_lines(&result.decisions);
    let removed = removed_text_of(&result.removed);
    let warnings = warning_text_of(&result.warnings);
    let a = section_text("Applied Changes", applied_count, "-------------------", applied.as_str(), "\n");
    let b = section_text("Removed Changes", result.removed.len(), "-------------------", removed.as_str(), "\n");
    let c = section_text("Warnings", result.warnings.len(), "---------", warnings.as_str(), "\n");
    let d = section_text("Needs Review", review_count, "-------------", review.as_str(), "");
    let r = cat(&["=== Merge Summary ===\n\n", a.as_str(), b.as_str(), c.as_str(), d.as_str()]);
    proof {
        reveal_with_fuel(cat_views, 6);
        reveal_strlit("");
        assert(""@ =~= Seq::<char>::empty());
    }
    r
}

} // verus!
