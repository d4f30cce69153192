//! Properties of version reports across their functions: what comparing
//! reports and detecting conflicts give, stated over the specifications
//! that the functions' contracts use.
use vstd::prelude::*;
use crate::keyed::{has_key, key_index, lemma_key_index_bounds, lemma_key_index_is, value_of};
use crate::order::lemma_version_not_below_itself;
use crate::versions::apply::{
    chart_diffs, entry_image_changes, image_changes, image_diffs, images_updated, item_image_changes, own_tag_update,
    tag_override, updated_image_entries, updated_image_items, version_diffs,
};
use crate::versions::conflict::{
    chart_conflicts, charts_conflicts, component_conflicts, find_chart, find_image, image_conflicts,
    images_conflicts, registry_of, report_conflicts,
};
use crate::versions::merge::{first_chart, first_image};
use crate::versions::extract::{child_path, entry_images, image_parts, images_in, item_images, item_path};
use crate::text::{all_digits, first_index, last_index, lemma_first_index_bounds, lemma_last_index_is};
use crate::yaml::{entry_index, entry_value, lemma_entry_index, text_of, untag, YamlView};
use crate::versions::models::{distinct_keys, ChartView, ComponentVersions, ConflictView, ImageView};

verus! {

/// No two charts share a name.
pub open spec fn distinct_chart_names(cs: Seq<ChartView>) -> bool {
    forall|i: int, j: int| 0 <= i < j < cs.len() ==> cs[i].name != cs[j].name
}

/// No two images share a name.
pub open spec fn distinct_image_names(is: Seq<ImageView>) -> bool {
    forall|i: int, j: int| 0 <= i < j < is.len() ==> is[i].name != is[j].name
}

/// A report's components have distinct paths, and each lists its charts and
/// its images under distinct names.
pub open spec fn distinct_versions(c: Seq<(String, ComponentVersions)>) -> bool {
    &&& distinct_keys(c)
    &&& forall|k: int| 0 <= k < c.len() ==> distinct_chart_names((#[trigger] c[k]).1@.helm_charts)
        && distinct_image_names(c[k].1@.container_images)
}

/// In charts with distinct names, the first chart named like one is it.
proof fn lemma_first_chart_is(cs: Seq<ChartView>, k: int)
    requires
        distinct_chart_names(cs),
        0 <= k < cs.len(),
    ensures
        first_chart(cs, cs[k].name) == Some(cs[k]),
        find_chart(cs, cs[k].name) == Some(cs[k]),
    decreases k,
{
    if k > 0 {
        let d = cs.drop_first();
        assert forall|i: int, j: int| 0 <= i < j < d.len() implies d[i].name != d[j].name by {
            assert(d[i] == cs[i + 1] && d[j] == cs[j + 1]);
        }
        assert(d[k - 1] == cs[k]);
        lemma_first_chart_is(d, k - 1);
    }
}

/// In images with distinct names, the first image named like one is it.
proof fn lemma_first_image_is(is: Seq<ImageView>, k: int)
    requires
        distinct_image_names(is),
        0 <= k < is.len(),
    ensures
        first_image(is, is[k].name) == Some(is[k]),
        find_image(is, is[k].name) == Some(is[k]),
    decreases k,
{
    if k > 0 {
        let d = is.drop_first();
        assert forall|i: int, j: int| 0 <= i < j < d.len() implies d[i].name != d[j].name by {
            assert(d[i] == is[i + 1] && d[j] == is[j + 1]);
        }
        assert(d[k - 1] == is[k]);
        lemma_first_image_is(d, k - 1);
    }
}

/// Charts with distinct names differ from none of themselves, nor conflict
/// with themselves.
proof fn lemma_charts_against_themselves(cs: Seq<ChartView>, n: int, component: Seq<char>)
    requires
        distinct_chart_names(cs),
        0 <= n <= cs.len(),
    ensures
        chart_diffs(cs.take(n), cs).len() == 0,
        charts_conflicts(component, cs.take(n), cs).len() == 0,
    decreases n,
{
    if n > 0 {
        assert(cs.take(n).drop_last() =~= cs.take(n - 1));
        assert(cs.take(n).last() == cs[n - 1]);
        lemma_charts_against_themselves(cs, n - 1, component);
        lemma_first_chart_is(cs, n - 1);
        lemma_version_not_below_itself(cs[n - 1].version);
        assert(chart_conflicts(component, cs[n - 1], cs).len() == 0);
    }
}

/// Images with distinct names differ from none of themselves, nor conflict
/// with themselves.
proof fn lemma_images_against_themselves(is: Seq<ImageView>, n: int, component: Seq<char>)
    requires
        distinct_image_names(is),
        0 <= n <= is.len(),
    ensures
        image_diffs(is.take(n), is).len() == 0,
        images_conflicts(component, is.take(n), is).len() == 0,
    decreases n,
{
    if n > 0 {
        assert(is.take(n).drop_last() =~= is.take(n - 1));
        assert(is.take(n).last() == is[n - 1]);
        lemma_images_against_themselves(is, n - 1, component);
        lemma_first_image_is(is, n - 1);
        lemma_version_not_below_itself(is[n - 1].tag);
        let x = is[n - 1];
        assert(registry_of(x.name) == registry_of(x.name));
        assert(image_conflicts(component, x, is).len() == 0);
    }
}

/// A report's entry is what a lookup of its own key finds.
proof fn lemma_value_of_own_key(c: Seq<(String, ComponentVersions)>, k: int)
    requires
        distinct_keys(c),
        0 <= k < c.len(),
    ensures
        value_of(c, c[k].0@) == Some(c[k].1),
{
    lemma_key_index_is(c, c[k].0@, k);
}

/// Comparing the first `n` components of a report with the report finds no
/// difference and no conflict.
proof fn lemma_report_against_itself(c: Seq<(String, ComponentVersions)>, n: int)
    requires
        distinct_versions(c),
        0 <= n <= c.len(),
    ensures
        version_diffs(c.take(n), c).len() == 0,
        report_conflicts(c.take(n), c).len() == 0,
    decreases n,
{
    if n > 0 {
        assert(c.take(n).drop_last() =~= c.take(n - 1));
        assert(c.take(n).last() == c[n - 1]);
        lemma_report_against_itself(c, n - 1);
        lemma_value_of_own_key(c, n - 1);
        let v = c[n - 1].1@;
        let name = c[n - 1].0@;
        assert(distinct_chart_names(v.helm_charts) && distinct_image_names(v.container_images));
        lemma_charts_against_themselves(v.helm_charts, v.helm_charts.len() as int, name);
        lemma_images_against_themselves(v.container_images, v.container_images.len() as int, name);
        assert(v.helm_charts.take(v.helm_charts.len() as int) =~= v.helm_charts);
        assert(v.container_images.take(v.container_images.len() as int) =~= v.container_images);
        assert(component_conflicts(name, v, v).len() == 0);
    }
}

/// A report whose components, charts and images are keyed by distinct
/// names shows no version difference and no conflict against itself.
pub proof fn reports_agree_with_themselves(c: Seq<(String, ComponentVersions)>)
    requires
        distinct_versions(c),
    ensures
        version_diffs(c, c).len() == 0,
        report_conflicts(c, c).len() == 0,
{
    lemma_report_against_itself(c, c.len() as int);
    assert(c.take(c.len() as int) =~= c);
}

/// Every chart difference changes the version.
proof fn lemma_chart_diffs_change(src: Seq<ChartView>, dst: Seq<ChartView>)
    ensures
        forall|j: int| 0 <= j < chart_diffs(src, dst).len() ==> (#[trigger] chart_diffs(src, dst)[j]).changed
            && chart_diffs(src, dst)[j].source_version != chart_diffs(src, dst)[j].dest_version,
    decreases src.len(),
{
    if src.len() > 0 {
        lemma_chart_diffs_change(src.drop_last(), dst);
        let r = chart_diffs(src.drop_last(), dst);
        let all = chart_diffs(src, dst);
        assert forall|j: int| 0 <= j < all.len() implies (#[trigger] all[j]).changed
            && all[j].source_version != all[j].dest_version by {
            if j < r.len() {
                assert(all[j] == r[j]);
            }
        }
    }
}

/// Every image difference changes the tag.
proof fn lemma_image_diffs_change(src: Seq<ImageView>, dst: Seq<ImageView>)
    ensures
        forall|j: int| 0 <= j < image_diffs(src, dst).len() ==> (#[trigger] image_diffs(src, dst)[j]).changed
            && image_diffs(src, dst)[j].source_tag != image_diffs(src, dst)[j].dest_tag,
    decreases src.len(),
{
    if src.len() > 0 {
        lemma_image_diffs_change(src.drop_last(), dst);
        let r = image_diffs(src.drop_last(), dst);
        let all = image_diffs(src, dst);
        assert forall|j: int| 0 <= j < all.len() implies (#[trigger] all[j]).changed
            && all[j].source_tag != all[j].dest_tag by {
            if j < r.len() {
                assert(all[j] == r[j]);
            }
        }
    }
}

/// The entry at `k` carries its key.
proof fn lemma_has_own_key(c: Seq<(String, ComponentVersions)>, k: int)
    requires
        0 <= k < c.len(),
    ensures
        has_key(c, c[k].0@),
{
    lemma_key_index_bounds(c, c[k].0@);
}

/// The differences of two reports are of components that both have; each
/// changes at least one chart or image, and every chart and image it lists
/// has changed, from a differing version or tag.
pub proof fn version_differences_are_real(
    source: Seq<(String, ComponentVersions)>,
    dest: Seq<(String, ComponentVersions)>,
)
    ensures
        forall|i: int| 0 <= i < version_diffs(source, dest).len() ==> {
            let d = #[trigger] version_diffs(source, dest)[i];
            &&& has_key(source, d.component)
            &&& has_key(dest, d.component)
            &&& d.helm_charts.len() > 0 || d.container_images.len() > 0
            &&& forall|j: int| 0 <= j < d.helm_charts.len() ==> (#[trigger] d.helm_charts[j]).changed
                && d.helm_charts[j].source_version != d.helm_charts[j].dest_version
            &&& forall|j: int| 0 <= j < d.container_images.len() ==> (#[trigger] d.container_images[j]).changed
                && d.container_images[j].source_tag != d.container_images[j].dest_tag
        },
    decreases source.len(),
{
    if source.len() > 0 {
        let s0 = source.drop_last();
        version_differences_are_real(s0, dest);
        let r = version_diffs(s0, dest);
        let (c, s) = source.last();
        let n = source.len() - 1;
        assert(source[n] == source.last());
        lemma_has_own_key(source, n);
        lemma_key_index_bounds(dest, c@);
        assert forall|i: int| 0 <= i < r.len() implies has_key(source, (#[trigger] r[i]).component) by {
            assert(has_key(s0, r[i].component));
            lemma_key_index_bounds(s0, r[i].component);
            let k = key_index(s0, r[i].component)->0;
            assert(s0[k] == source[k]);
            lemma_key_index_bounds(source, r[i].component);
        }
        match value_of(dest, c@) {
            Some(d) => {
                lemma_chart_diffs_change(s@.helm_charts, d@.helm_charts);
                lemma_image_diffs_change(s@.container_images, d@.container_images);
            },
            None => {},
        }
    }
}

/// Some chart of `src` has, as the first chart of its name in `dst`, one
/// with another version.
pub open spec fn some_chart_differs(src: Seq<ChartView>, dst: Seq<ChartView>) -> bool {
    exists|a: int, b: int|
        0 <= a < src.len() && 0 <= b < dst.len() && #[trigger] dst[b].name == #[trigger] src[a].name
            && (forall|q: int| 0 <= q < b ==> dst[q].name != src[a].name) && dst[b].version
            != src[a].version
}

/// Some image of `src` has, as the first image of its name in `dst`, one
/// with another tag.
pub open spec fn some_image_differs(src: Seq<ImageView>, dst: Seq<ImageView>) -> bool {
    exists|a: int, b: int|
        0 <= a < src.len() && 0 <= b < dst.len() && #[trigger] dst[b].name == #[trigger] src[a].name
            && (forall|q: int| 0 <= q < b ==> dst[q].name != src[a].name) && dst[b].tag != src[a].tag
}

/// The first chart named like the one at `b`, with none of that name
/// before it, is that chart.
proof fn lemma_first_chart_at(cs: Seq<ChartView>, b: int)
    requires
        0 <= b < cs.len(),
        forall|q: int| 0 <= q < b ==> cs[q].name != cs[b].name,
    ensures
        first_chart(cs, cs[b].name) == Some(cs[b]),
    decreases b,
{
    if b > 0 {
        let d = cs.drop_first();
        assert(d[b - 1] == cs[b]);
        assert forall|q: int| 0 <= q < b - 1 implies (#[trigger] d[q]).name != d[b - 1].name by {
            assert(d[q] == cs[q + 1]);
        }
        lemma_first_chart_at(d, b - 1);
    }
}

/// The first image named like the one at `b`, with none of that name
/// before it, is that image.
proof fn lemma_first_image_at(is: Seq<ImageView>, b: int)
    requires
        0 <= b < is.len(),
        forall|q: int| 0 <= q < b ==> is[q].name != is[b].name,
    ensures
        first_image(is, is[b].name) == Some(is[b]),
    decreases b,
{
    if b > 0 {
        let d = is.drop_first();
        assert(d[b - 1] == is[b]);
        assert forall|q: int| 0 <= q < b - 1 implies (#[trigger] d[q]).name != d[b - 1].name by {
            assert(d[q] == is[q + 1]);
        }
        lemma_first_image_at(d, b - 1);
    }
}

/// A chart whose version differs yields a chart difference.
proof fn lemma_chart_diffs_found(src: Seq<ChartView>, dst: Seq<ChartView>, a: int, b: int)
    requires
        0 <= a < src.len(),
        0 <= b < dst.len(),
        dst[b].name == src[a].name,
        forall|q: int| 0 <= q < b ==> dst[q].name != src[a].name,
        dst[b].version != src[a].version,
    ensures
        chart_diffs(src, dst).len() > 0,
    decreases src.len(),
{
    let r = chart_diffs(src.drop_last(), dst);
    if a == src.len() - 1 {
        lemma_first_chart_at(dst, b);
        assert(src.last() == src[a]);
    } else {
        assert(src.drop_last()[a] == src[a]);
        lemma_chart_diffs_found(src.drop_last(), dst, a, b);
    }
}

/// An image whose tag differs yields an image difference.
proof fn lemma_image_diffs_found(src: Seq<ImageView>, dst: Seq<ImageView>, a: int, b: int)
    requires
        0 <= a < src.len(),
        0 <= b < dst.len(),
        dst[b].name == src[a].name,
        forall|q: int| 0 <= q < b ==> dst[q].name != src[a].name,
        dst[b].tag != src[a].tag,
    ensures
        image_diffs(src, dst).len() > 0,
    decreases src.len(),
{
    let r = image_diffs(src.drop_last(), dst);
    if a == src.len() - 1 {
        lemma_first_image_at(dst, b);
        assert(src.last() == src[a]);
    } else {
        assert(src.drop_last()[a] == src[a]);
        lemma_image_diffs_found(src.drop_last(), dst, a, b);
    }
}

/// Comparing two reports lists every component they share whose versions
/// differ: when the source's component at `k` is, first, the destination's
/// at `j`, and some chart or image of it has another version or tag there,
/// a difference names it (whatever other components differ too).
pub proof fn differing_components_are_listed(
    source: Seq<(String, ComponentVersions)>,
    dest: Seq<(String, ComponentVersions)>,
    k: int,
    j: int,
)
    requires
        0 <= k < source.len(),
        0 <= j < dest.len(),
        dest[j].0@ == source[k].0@,
        forall|m: int| 0 <= m < j ==> dest[m].0@ != source[k].0@,
        some_chart_differs(source[k].1@.helm_charts, dest[j].1@.helm_charts) || some_image_differs(
            source[k].1@.container_images,
            dest[j].1@.container_images,
        ),
    ensures
        exists|m: int|
            0 <= m < version_diffs(source, dest).len() && (#[trigger] version_diffs(source, dest)[m]).component
                == source[k].0@,
    decreases source.len(),
{
    let s0 = source.drop_last();
    let r = version_diffs(s0, dest);
    let all = version_diffs(source, dest);
    if k == source.len() - 1 {
        let (c, s) = source.last();
        assert(source.last() == source[k]);
        lemma_key_index_bounds(dest, c@);
        let i = key_index(dest, c@);
        assert(i == Some(j)) by {
            if let Some(x) = i {
                if x < j {
                    assert(dest[x].0@ == c@);
                }
                if j < x {
                    assert(dest[j].0@ == c@);
                }
            }
        }
        assert(value_of(dest, c@) == Some(dest[j].1));
        let d = dest[j].1;
        if some_chart_differs(s@.helm_charts, d@.helm_charts) {
            let (a, b) = choose|a: int, b: int|
                0 <= a < s@.helm_charts.len() && 0 <= b < d@.helm_charts.len() && #[trigger] d@.helm_charts[b].name
                    == #[trigger] s@.helm_charts[a].name && (forall|q: int|
                    0 <= q < b ==> d@.helm_charts[q].name != s@.helm_charts[a].name)
                    && d@.helm_charts[b].version != s@.helm_charts[a].version;
            lemma_chart_diffs_found(s@.helm_charts, d@.helm_charts, a, b);
        } else {
            let (a, b) = choose|a: int, b: int|
                0 <= a < s@.container_images.len() && 0 <= b < d@.container_images.len()
                    && #[trigger] d@.container_images[b].name == #[trigger] s@.container_images[a].name
                    && (forall|q: int| 0 <= q < b ==> d@.container_images[q].name != s@.container_images[a].name)
                    && d@.container_images[b].tag != s@.container_images[a].tag;
            lemma_image_diffs_found(s@.container_images, d@.container_images, a, b);
        }
        assert(all == r.push(all.last()));
        assert(all[all.len() - 1].component == source[k].0@);
    } else {
        assert(s0[k] == source[k]);
        differing_components_are_listed(s0, dest, k, j);
        let m = choose|m: int| 0 <= m < r.len() && (#[trigger] r[m]).component == source[k].0@;
        assert(all[m] == r[m]);
    }
}

/// Every conflict of one component's charts and images names it.
proof fn lemma_component_conflicts_named(name: Seq<char>, src: crate::versions::models::ComponentView, dst: crate::versions::models::ComponentView)
    ensures
        forall|j: int| 0 <= j < component_conflicts(name, src, dst).len() ==> (#[trigger] component_conflicts(
            name,
            src,
            dst,
        )[j]).component == name,
{
    lemma_charts_named(name, src.helm_charts, dst.helm_charts);
    lemma_images_named(name, src.container_images, dst.container_images);
    let a = charts_conflicts(name, src.helm_charts, dst.helm_charts);
    let b = images_conflicts(name, src.container_images, dst.container_images);
    assert forall|j: int| 0 <= j < (a + b).len() implies (#[trigger] (a + b)[j]).component == name by {
        if j < a.len() {
            assert((a + b)[j] == a[j]);
        } else {
            assert((a + b)[j] == b[j - a.len()]);
        }
    }
}

/// Every chart conflict names the component.
proof fn lemma_charts_named(name: Seq<char>, srcs: Seq<ChartView>, dsts: Seq<ChartView>)
    ensures
        forall|j: int| 0 <= j < charts_conflicts(name, srcs, dsts).len() ==> (#[trigger] charts_conflicts(
            name,
            srcs,
            dsts,
        )[j]).component == name,
    decreases srcs.len(),
{
    if srcs.len() > 0 {
        lemma_charts_named(name, srcs.drop_last(), dsts);
        let a = charts_conflicts(name, srcs.drop_last(), dsts);
        let b = chart_conflicts(name, srcs.last(), dsts);
        assert forall|j: int| 0 <= j < b.len() implies (#[trigger] b[j]).component == name by {
            match find_chart(dsts, srcs.last().name) {
                Some(d) => {
                    let x = crate::versions::conflict::repository_conflict(name, srcs.last(), d);
                    let y = crate::versions::conflict::chart_downgrade(name, srcs.last(), d);
                    if j < x.len() {
                        assert(b[j] == x[j]);
                    } else {
                        assert(b[j] == y[j - x.len()]);
                    }
                },
                None => {},
            }
        }
        assert forall|j: int| 0 <= j < (a + b).len() implies (#[trigger] (a + b)[j]).component == name by {
            if j < a.len() {
                assert((a + b)[j] == a[j]);
            } else {
                assert((a + b)[j] == b[j - a.len()]);
            }
        }
    }
}

/// Every image conflict names the component.
proof fn lemma_images_named(name: Seq<char>, srcs: Seq<ImageView>, dsts: Seq<ImageView>)
    ensures
        forall|j: int| 0 <= j < images_conflicts(name, srcs, dsts).len() ==> (#[trigger] images_conflicts(
            name,
            srcs,
            dsts,
        )[j]).component == name,
    decreases srcs.len(),
{
    if srcs.len() > 0 {
        lemma_images_named(name, srcs.drop_last(), dsts);
        let a = images_conflicts(name, srcs.drop_last(), dsts);
        let b = image_conflicts(name, srcs.last(), dsts);
        assert forall|j: int| 0 <= j < b.len() implies (#[trigger] b[j]).component == name by {
        }
        assert forall|j: int| 0 <= j < (a + b).len() implies (#[trigger] (a + b)[j]).component == name by {
            if j < a.len() {
                assert((a + b)[j] == a[j]);
            } else {
                assert((a + b)[j] == b[j - a.len()]);
            }
        }
    }
}

/// Conflicts are found only in components that both reports have.
pub proof fn conflicts_are_in_shared_components(
    source: Seq<(String, ComponentVersions)>,
    dest: Seq<(String, ComponentVersions)>,
)
    ensures
        forall|i: int| 0 <= i < report_conflicts(source, dest).len() ==> has_key(
            source,
            (#[trigger] report_conflicts(source, dest)[i]).component,
        ) && has_key(dest, report_conflicts(source, dest)[i].component),
    decreases source.len(),
{
    if source.len() > 0 {
        let s0 = source.drop_last();
        conflicts_are_in_shared_components(s0, dest);
        let a = report_conflicts(s0, dest);
        let n = source.len() - 1;
        let (name, versions) = source.last();
        assert(source[n] == source.last());
        lemma_has_own_key(source, n);
        lemma_key_index_bounds(dest, name@);
        let b = match value_of(dest, name@) {
            Some(d) => component_conflicts(name@, versions@, d@),
            None => Seq::<ConflictView>::empty(),
        };
        match value_of(dest, name@) {
            Some(d) => lemma_component_conflicts_named(name@, versions@, d@),
            None => {},
        }
        assert forall|i: int| 0 <= i < (a + b).len() implies has_key(source, (#[trigger] (a + b)[i]).component)
            && has_key(dest, (a + b)[i].component) by {
            if i < a.len() {
                assert((a + b)[i] == a[i]);
                assert(has_key(s0, a[i].component));
                lemma_key_index_bounds(s0, a[i].component);
                let k = key_index(s0, a[i].component)->0;
                assert(s0[k] == source[k]);
                lemma_key_index_bounds(source, a[i].component);
            } else {
                assert((a + b)[i] == b[i - a.len()]);
            }
        }
        assert(report_conflicts(source, dest) == a + b);
    }
}


/// A text holds no `c`.
pub open spec fn free_of(s: Seq<char>, c: char) -> bool {
    forall|i: int| 0 <= i < s.len() ==> s[i] != c
}

/// An image reference `repo:tag` splits into its repository and tag when
/// the repository is not empty and holds no `:` or `@`, and the tag is not
/// empty, holds no `:` or `@` and is not a port number (some character is
/// not a digit, or it is longer than five); `repo@digest` splits at its
/// `@` when the repository holds none.
pub proof fn image_references_split_at_their_tag(repo: Seq<char>, tag: Seq<char>)
    ensures
        repo.len() > 0 && tag.len() > 0 && free_of(repo, ':') && free_of(repo, '@') && free_of(tag, ':')
            && free_of(tag, '@') && !(all_digits(tag) && tag.len() <= 5) ==> image_parts(
            repo + seq![':'] + tag,
        ) == Some((repo, tag)),
        free_of(repo, '@') ==> image_parts(repo + seq!['@'] + tag) == Some((repo, tag)),
{
    let n: int = repo.len() as int;
    let s = repo + seq![':'] + tag;
    if repo.len() > 0 && tag.len() > 0 && free_of(repo, ':') && free_of(repo, '@') && free_of(tag, ':')
        && free_of(tag, '@') && !(all_digits(tag) && tag.len() <= 5) {
        assert forall|i: int| 0 <= i < s.len() implies s[i] != '@' by {
            if i < n {
                assert(s[i] == repo[i]);
            } else if i > n {
                assert(s[i] == tag[i - n - 1]);
            }
        }
        lemma_first_index_bounds(s, '@');
        assert(first_index(s, '@') is None);
        assert(s[n] == ':');
        assert forall|j: int| n < j < s.len() implies s[j] != ':' by {
            assert(s[j] == tag[j - n - 1]);
        }
        lemma_last_index_is(s, ':', n);
        assert(s.skip(n + 1) =~= tag);
        assert(s.take(n) =~= repo);
    }
    let t = repo + seq!['@'] + tag;
    if free_of(repo, '@') {
        assert(t[n] == '@');
        assert forall|j: int| 0 <= j < n implies t[j] != '@' by {
            assert(t[j] == repo[j]);
        }
        crate::text::lemma_first_index_is(t, '@', n);
        assert(t.skip(n + 1) =~= tag);
        assert(t.take(n) =~= repo);
    }
}

/// A mapping whose `image` is a text that splits into a repository and a
/// tag yields an image of that name and tag, from the file read.
pub proof fn string_images_are_extracted(
    entries: Seq<(YamlView, YamlView)>,
    file: Seq<char>,
    path: Seq<char>,
    v: YamlView,
    s: Seq<char>,
    repo: Seq<char>,
    tag: Seq<char>,
)
    requires
        entry_value(entries, "image"@) == Some(v),
        text_of(v) == Some(s),
        image_parts(s) == Some((repo, tag)),
    ensures
        exists|m: int|
            0 <= m < images_in(YamlView::Mapping(entries), file, path).len() && {
                let img = #[trigger] images_in(YamlView::Mapping(entries), file, path)[m];
                img.name == repo && img.tag == tag && img.source_file == file
            },
{
    let all = images_in(YamlView::Mapping(entries), file, path);
    let p = crate::versions::extract::pair_image(entries, file, path);
    let q = crate::versions::extract::string_image(entries, file, path);
    assert(q.len() == 1);
    assert(all[p.len() as int] == q[0]);
}

/// A mapping with a text `repository` and a text `tag` that is neither
/// empty nor `latest` yields an image of that name and tag, from the file
/// read.
pub proof fn repository_tag_images_are_extracted(
    entries: Seq<(YamlView, YamlView)>,
    file: Seq<char>,
    path: Seq<char>,
    r: YamlView,
    t: YamlView,
    repo: Seq<char>,
    tag: Seq<char>,
)
    requires
        entry_value(entries, "repository"@) == Some(r),
        entry_value(entries, "tag"@) == Some(t),
        text_of(r) == Some(repo),
        text_of(t) == Some(tag),
        tag.len() > 0,
        tag != "latest"@,
    ensures
        exists|m: int|
            0 <= m < images_in(YamlView::Mapping(entries), file, path).len() && {
                let img = #[trigger] images_in(YamlView::Mapping(entries), file, path)[m];
                img.name == repo && img.tag == tag && img.source_file == file
            },
{
    let all = images_in(YamlView::Mapping(entries), file, path);
    let p = crate::versions::extract::pair_image(entries, file, path);
    assert(p.len() == 1);
    assert(all[0] == p[0]);
}

/// The images of a value under a text key of a mapping are among the
/// mapping's images.
pub proof fn nested_images_are_extracted(
    entries: Seq<(YamlView, YamlView)>,
    file: Seq<char>,
    path: Seq<char>,
    k: int,
    key: Seq<char>,
)
    requires
        0 <= k < entries.len(),
        text_of(entries[k].0) == Some(key),
    ensures
        forall|m: int|
            0 <= m < images_in(entries[k].1, file, child_path(path, key)).len() ==> images_in(
                YamlView::Mapping(entries),
                file,
                path,
            ).contains(#[trigger] images_in(entries[k].1, file, child_path(path, key))[m]),
{
    let inner = images_in(entries[k].1, file, child_path(path, key));
    lemma_entry_images_hold(entries, file, path, k, key);
    let own = crate::versions::extract::pair_image(entries, file, path) + crate::versions::extract::string_image(
        entries,
        file,
        path,
    );
    let e = entry_images(entries, file, path);
    assert forall|m: int| 0 <= m < inner.len() implies images_in(YamlView::Mapping(entries), file, path).contains(
        #[trigger] inner[m],
    ) by {
        assert(e.contains(inner[m]));
        let w = choose|w: int| 0 <= w < e.len() && e[w] == inner[m];
        assert(images_in(YamlView::Mapping(entries), file, path)[own.len() + w] == inner[m]);
    }
}

/// The images of the entry at `k` are among those of the entries.
proof fn lemma_entry_images_hold(
    entries: Seq<(YamlView, YamlView)>,
    file: Seq<char>,
    path: Seq<char>,
    k: int,
    key: Seq<char>,
)
    requires
        0 <= k < entries.len(),
        text_of(entries[k].0) == Some(key),
    ensures
        forall|m: int|
            0 <= m < images_in(entries[k].1, file, child_path(path, key)).len() ==> entry_images(
                entries,
                file,
                path,
            ).contains(#[trigger] images_in(entries[k].1, file, child_path(path, key))[m]),
    decreases entries.len(),
{
    let inner = images_in(entries[k].1, file, child_path(path, key));
    let d = entries.drop_last();
    let r = entry_images(d, file, path);
    let all = entry_images(entries, file, path);
    if k == entries.len() - 1 {
        assert(entries.last() == entries[k]);
        assert(all == r + inner);
        assert forall|m: int| 0 <= m < inner.len() implies all.contains(#[trigger] inner[m]) by {
            assert(all[r.len() + m] == inner[m]);
        }
    } else {
        assert(d[k] == entries[k]);
        lemma_entry_images_hold(d, file, path, k, key);
        let tail = match text_of(entries.last().0) {
            Some(k2) => images_in(entries.last().1, file, child_path(path, k2)),
            None => Seq::empty(),
        };
        assert(all == r + tail);
        assert forall|m: int| 0 <= m < inner.len() implies all.contains(#[trigger] inner[m]) by {
            assert(r.contains(inner[m]));
            let w = choose|w: int| 0 <= w < r.len() && r[w] == inner[m];
            assert(all[w] == r[w]);
        }
    }
}

/// The images of the item at `k` of a sequence are among the sequence's
/// images.
pub proof fn item_images_are_extracted(items: Seq<YamlView>, file: Seq<char>, path: Seq<char>, k: int)
    requires
        0 <= k < items.len(),
    ensures
        forall|m: int|
            0 <= m < images_in(items[k], file, item_path(path, k as nat)).len() ==> images_in(
                YamlView::Sequence(items),
                file,
                path,
            ).contains(#[trigger] images_in(items[k], file, item_path(path, k as nat))[m]),
    decreases items.len(),
{
    let inner = images_in(items[k], file, item_path(path, k as nat));
    let d = items.drop_last();
    let r = item_images(d, file, path);
    let all = images_in(YamlView::Sequence(items), file, path);
    assert(all == item_images(items, file, path));
    if k == items.len() - 1 {
        assert(items.last() == items[k]);
        assert forall|m: int| 0 <= m < inner.len() implies all.contains(#[trigger] inner[m]) by {
            assert(all[r.len() + m] == inner[m]);
        }
    } else {
        assert(d[k] == items[k]);
        item_images_are_extracted(d, file, path, k);
        assert forall|m: int| 0 <= m < inner.len() implies all.contains(#[trigger] inner[m]) by {
            assert(images_in(YamlView::Sequence(d), file, path).contains(inner[m]));
            let w = choose|w: int| 0 <= w < r.len() && r[w] == inner[m];
            assert(all[w] == r[w]);
        }
    }
}


/// The node that `path` leads to from `v`: each step picks, by position,
/// the value of a mapping entry or the item of a sequence.
pub open spec fn node_at(v: YamlView, path: Seq<int>) -> Option<YamlView>
    decreases path.len(),
{
    if path.len() == 0 {
        Some(v)
    } else {
        match v {
            YamlView::Mapping(es) => if 0 <= path[0] < es.len() {
                node_at(es[path[0]].1, path.drop_first())
            } else {
                None
            },
            YamlView::Sequence(items) => if 0 <= path[0] < items.len() {
                node_at(items[path[0]], path.drop_first())
            } else {
                None
            },
            _ => None,
        }
    }
}

/// A text (under any tags) is neither a mapping nor a sequence, and
/// updating image tags leaves it as it is.
proof fn lemma_text_is_a_leaf(x: YamlView, images: Seq<ImageView>)
    requires
        text_of(x) is Some,
    ensures
        !(x is Mapping),
        !(x is Sequence),
        images_updated(x, images) == x,
{
    match x {
        YamlView::Mapping(_) => {
            assert(untag(x) == x);
        },
        YamlView::Sequence(_) => {
            assert(untag(x) == x);
        },
        _ => {},
    }
}

/// Updating mapping entries keeps their keys and count; the entry at the
/// override gets the new tag and every other value is updated in place.
proof fn lemma_updated_entries(
    es: Seq<(YamlView, YamlView)>,
    images: Seq<ImageView>,
    ov: Option<(int, Seq<char>)>,
)
    ensures
        updated_image_entries(es, images, ov).len() == es.len(),
        forall|i: int|
            0 <= i < es.len() ==> (#[trigger] updated_image_entries(es, images, ov)[i]).0 == es[i].0
                && updated_image_entries(es, images, ov)[i].1 == (if ov is Some && (ov->0).0 == i {
                YamlView::Text((ov->0).1)
            } else {
                images_updated(es[i].1, images)
            }),
    decreases es.len(),
{
    if es.len() > 0 {
        lemma_updated_entries(es.drop_last(), images, ov);
        let r = updated_image_entries(es.drop_last(), images, ov);
        let all = updated_image_entries(es, images, ov);
        assert forall|i: int| 0 <= i < es.len() implies (#[trigger] all[i]).0 == es[i].0 && all[i].1 == (
        if ov is Some && (ov->0).0 == i {
            YamlView::Text((ov->0).1)
        } else {
            images_updated(es[i].1, images)
        }) by {
            if i < es.len() - 1 {
                assert(all[i] == r[i]);
                assert(es.drop_last()[i] == es[i]);
            } else {
                assert(es.last() == es[i]);
            }
        }
    }
}

/// Updating sequence items keeps their count and updates each in place.
proof fn lemma_updated_items(items: Seq<YamlView>, images: Seq<ImageView>)
    ensures
        updated_image_items(items, images).len() == items.len(),
        forall|i: int|
            0 <= i < items.len() ==> #[trigger] updated_image_items(items, images)[i] == images_updated(
                items[i],
                images,
            ),
    decreases items.len(),
{
    if items.len() > 0 {
        lemma_updated_items(items.drop_last(), images);
        let r = updated_image_items(items.drop_last(), images);
        let all = updated_image_items(items, images);
        assert forall|i: int| 0 <= i < items.len() implies #[trigger] all[i] == images_updated(items[i], images) by {
            if i < items.len() - 1 {
                assert(all[i] == r[i]);
                assert(items.drop_last()[i] == items[i]);
            } else {
                assert(items.last() == items[i]);
            }
        }
    }
}

/// The change records of an entry's value that is not overridden are among
/// the entries' change records.
proof fn lemma_entry_changes_hold(
    es: Seq<(YamlView, YamlView)>,
    images: Seq<ImageView>,
    ov: Option<(int, Seq<char>)>,
    i: int,
)
    requires
        0 <= i < es.len(),
        !(ov is Some && (ov->0).0 == i),
    ensures
        forall|m: int|
            0 <= m < image_changes(es[i].1, images).len() ==> entry_image_changes(es, images, ov).contains(
                #[trigger] image_changes(es[i].1, images)[m],
            ),
    decreases es.len(),
{
    let inner = image_changes(es[i].1, images);
    let d = es.drop_last();
    let r = entry_image_changes(d, images, ov);
    let all = entry_image_changes(es, images, ov);
    if i == es.len() - 1 {
        assert(es.last() == es[i]);
        assert(all == r + inner);
        assert forall|m: int| 0 <= m < inner.len() implies all.contains(#[trigger] inner[m]) by {
            assert(all[r.len() + m] == inner[m]);
        }
    } else {
        assert(d[i] == es[i]);
        lemma_entry_changes_hold(d, images, ov, i);
        let tail = if ov is Some && (ov->0).0 == es.len() - 1 {
            Seq::empty()
        } else {
            image_changes(es.last().1, images)
        };
        assert(all == r + tail);
        assert forall|m: int| 0 <= m < inner.len() implies all.contains(#[trigger] inner[m]) by {
            assert(r.contains(inner[m]));
            let w = choose|w: int| 0 <= w < r.len() && r[w] == inner[m];
            assert(all[w] == r[w]);
        }
    }
}

/// The change records of an item are among the items' change records.
proof fn lemma_item_changes_hold(items: Seq<YamlView>, images: Seq<ImageView>, i: int)
    requires
        0 <= i < items.len(),
    ensures
        forall|m: int|
            0 <= m < image_changes(items[i], images).len() ==> item_image_changes(items, images).contains(
                #[trigger] image_changes(items[i], images)[m],
            ),
    decreases items.len(),
{
    let inner = image_changes(items[i], images);
    let d = items.drop_last();
    let r = item_image_changes(d, images);
    let all = item_image_changes(items, images);
    if i == items.len() - 1 {
        assert(items.last() == items[i]);
        assert(all == r + inner);
        assert forall|m: int| 0 <= m < inner.len() implies all.contains(#[trigger] inner[m]) by {
            assert(all[r.len() + m] == inner[m]);
        }
    } else {
        assert(d[i] == items[i]);
        lemma_item_changes_hold(d, images, i);
        assert(all == r + image_changes(items.last(), images));
        assert forall|m: int| 0 <= m < inner.len() implies all.contains(#[trigger] inner[m]) by {
            assert(r.contains(inner[m]));
            let w = choose|w: int| 0 <= w < r.len() && r[w] == inner[m];
            assert(all[w] == r[w]);
        }
    }
}

/// Entries with the same keys find a key at the same place.
proof fn lemma_entry_index_same_keys(a: Seq<(YamlView, YamlView)>, b: Seq<(YamlView, YamlView)>, key: Seq<char>)
    requires
        a.len() == b.len(),
        forall|i: int| 0 <= i < a.len() ==> (#[trigger] a[i]).0 == b[i].0,
    ensures
        entry_index(a, key) == entry_index(b, key),
    decreases a.len(),
{
    if a.len() > 0 {
        assert(a[0].0 == b[0].0);
        let a1 = a.drop_first();
        let b1 = b.drop_first();
        assert forall|i: int| 0 <= i < a1.len() implies (#[trigger] a1[i]).0 == b1[i].0 by {
            assert(a1[i] == a[i + 1] && b1[i] == b[i + 1]);
        }
        lemma_entry_index_same_keys(a1, b1, key);
    }
}

/// A change record found in a value's change records, with its fields.
pub open spec fn records_tag_change(
    changes: Seq<crate::versions::models::FileVersionChangeView>,
    name: Seq<char>,
    before: Seq<char>,
    after: Seq<char>,
) -> bool {
    exists|m: int|
        0 <= m < changes.len() && (#[trigger] changes[m]).name == name && changes[m].before == before
            && changes[m].after == after
}

/// Rewriting image tags reaches every mapping, at any depth and inside
/// sequences too: wherever a mapping names, under `repository`, an image of
/// the list (the first of that name, at `k`) and has a text `tag`, the
/// updated document has at the same place a mapping with as many entries
/// whose `tag` is that image's tag, and when the tag was another one a
/// change from it to the image's tag is recorded.
pub proof fn image_tags_are_updated_at_any_depth(
    v: YamlView,
    images: Seq<ImageView>,
    path: Seq<int>,
    es: Seq<(YamlView, YamlView)>,
    k: int,
    repo_value: YamlView,
    tag_value: YamlView,
    cur: Seq<char>,
)
    requires
        node_at(v, path) == Some(YamlView::Mapping(es)),
        0 <= k < images.len(),
        forall|j: int| 0 <= j < k ==> images[j].name != images[k].name,
        entry_value(es, "repository"@) == Some(repo_value),
        text_of(repo_value) == Some(images[k].name),
        entry_value(es, "tag"@) == Some(tag_value),
        text_of(tag_value) == Some(cur),
    ensures
        node_at(images_updated(v, images), path) matches Some(YamlView::Mapping(es2)) && es2.len()
            == es.len() && (entry_value(es2, "tag"@) matches Some(t2) && text_of(t2) == Some(
            images[k].tag,
        )),
        cur != images[k].tag ==> records_tag_change(
            image_changes(v, images),
            images[k].name,
            cur,
            images[k].tag,
        ),
    decreases path.len(),
{
    if path.len() == 0 {
        assert(v == YamlView::Mapping(es));
        lemma_first_image_at(images, k);
        lemma_entry_index(es, "tag"@);
        let ti = entry_index(es, "tag"@)->0;
        assert(entry_index(es, "tag"@) == Some(ti));
        assert(0 <= ti < es.len());
        let ov = tag_override(es, images);
        let es2 = updated_image_entries(es, images, ov);
        lemma_updated_entries(es, images, ov);
        assert forall|i: int| 0 <= i < es.len() implies (#[trigger] es[i]).0 == es2[i].0 by {
            assert(es2[i].0 == es[i].0);
        }
        lemma_entry_index_same_keys(es, es2, "tag"@);
        assert(images_updated(v, images) == YamlView::Mapping(es2));
        if cur != images[k].tag {
            assert(own_tag_update(es, images) == Some((images[k].name, cur, images[k].tag)));
            assert(ov == Some((ti, images[k].tag)));
            assert(es2[ti].1 == YamlView::Text(images[k].tag));
            assert(untag(YamlView::Text(images[k].tag)) == YamlView::Text(images[k].tag));
            let ch = image_changes(v, images);
            assert(ch[0].name == images[k].name && ch[0].before == cur && ch[0].after == images[k].tag);
        } else {
            assert(own_tag_update(es, images) is None);
            assert(ov is None);
            lemma_text_is_a_leaf(tag_value, images);
            assert(es[ti].1 == tag_value);
            assert(es2[ti].1 == tag_value);
        }
    } else {
        let i = path[0];
        let rest = path.drop_first();
        match v {
            YamlView::Mapping(ves) => {
                let child = ves[i].1;
                assert(node_at(child, rest) == Some(YamlView::Mapping(es)));
                image_tags_are_updated_at_any_depth(child, images, rest, es, k, repo_value, tag_value, cur);
                let ov = tag_override(ves, images);
                lemma_updated_entries(ves, images, ov);
                let ves2 = updated_image_entries(ves, images, ov);
                assert(!(ov is Some && (ov->0).0 == i)) by {
                    if ov is Some && (ov->0).0 == i {
                        let u = own_tag_update(ves, images)->0;
                        assert(entry_index(ves, "tag"@) == Some(i));
                        assert(entry_value(ves, "tag"@) == Some(child));
                        assert(text_of(child) is Some);
                        lemma_text_is_a_leaf(child, images);
                        if rest.len() > 0 {
                            assert(node_at(child, rest) is None);
                        }
                    }
                }
                assert(ves2[i].1 == images_updated(child, images));
                assert(images_updated(v, images) == YamlView::Mapping(ves2));
                assert(node_at(images_updated(v, images), path) == node_at(images_updated(child, images), rest));
                if cur != images[k].tag {
                    lemma_entry_changes_hold(ves, images, ov, i);
                    let inner = image_changes(child, images);
                    let m = choose|m: int|
                        0 <= m < inner.len() && (#[trigger] inner[m]).name == images[k].name && inner[m].before
                            == cur && inner[m].after == images[k].tag;
                    let e = entry_image_changes(ves, images, ov);
                    assert(e.contains(inner[m]));
                    let w = choose|w: int| 0 <= w < e.len() && e[w] == inner[m];
                    let own = crate::versions::apply::own_changes(ves, images);
                    let all = image_changes(v, images);
                    assert(all == own + e);
                    assert(all[own.len() + w] == inner[m]);
                }
            },
            YamlView::Sequence(items) => {
                let child = items[i];
                assert(node_at(child, rest) == Some(YamlView::Mapping(es)));
                image_tags_are_updated_at_any_depth(child, images, rest, es, k, repo_value, tag_value, cur);
                lemma_updated_items(items, images);
                let items2 = updated_image_items(items, images);
                assert(items2[i] == images_updated(child, images));
                assert(images_updated(v, images) == YamlView::Sequence(items2));
                assert(node_at(images_updated(v, images), path) == node_at(images_updated(child, images), rest));
                if cur != images[k].tag {
                    lemma_item_changes_hold(items, images, i);
                    let inner = image_changes(child, images);
                    let m = choose|m: int|
                        0 <= m < inner.len() && (#[trigger] inner[m]).name == images[k].name && inner[m].before
                            == cur && inner[m].after == images[k].tag;
                    let all = image_changes(v, images);
                    assert(all == item_image_changes(items, images));
                    assert(all.contains(inner[m]));
                    let w = choose|w: int| 0 <= w < all.len() && all[w] == inner[m];
                    assert(all[w].name == images[k].name);
                }
            },
            _ => {},
        }
    }
}

} // verus!
