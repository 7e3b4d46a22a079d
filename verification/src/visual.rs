//! Bringing the shaped clusters of a run into left-to-right visual order.

use vstd::prelude::*;

verus! {

/// The glyph lists of the clusters, one per cluster.
pub open spec fn cluster_views<T>(clusters: Seq<Vec<T>>) -> Seq<Seq<T>> {
    Seq::new(clusters.len(), |i: int| clusters[i]@)
}

/// The glyphs of the clusters in the order given, each cluster kept whole.
pub open spec fn flattened<T>(clusters: Seq<Seq<T>>) -> Seq<T>
    decreases clusters.len(),
{
    if clusters.len() == 0 {
        Seq::empty()
    } else {
        flattened(clusters.drop_last()) + clusters.last()
    }
}

/// The clusters of a run from left to right: as shaped for a left-to-right
/// run, in the opposite order for a right-to-left run.
pub open spec fn visual_clusters<T>(clusters: Seq<Seq<T>>, rtl: bool) -> Seq<Seq<T>> {
    if rtl {
        clusters.reverse()
    } else {
        clusters
    }
}

/// The glyphs of a run from left to right. A right-to-left run is turned
/// round as a whole, cluster by cluster; the glyphs inside a cluster keep
/// the order in which they were shaped.
pub open spec fn visual_glyphs<T>(clusters: Seq<Seq<T>>, rtl: bool) -> Seq<T> {
    flattened(visual_clusters(clusters, rtl))
}

/// Lists the glyphs of a shaped run from left to right.
pub fn visual_order<T: Copy>(clusters: &Vec<Vec<T>>, rtl: bool) -> (glyphs: Vec<T>)
    ensures
        glyphs@ == visual_glyphs(cluster_views(clusters@), rtl),
{
    let ghost ordered = visual_clusters(cluster_views(clusters@), rtl);
    let count = clusters.len();
    let mut glyphs: Vec<T> = Vec::new();
    let mut done: usize = 0;
    assert(ordered.take(0) =~= Seq::<Seq<T>>::empty());
    while done < count
        invariant
            count == clusters@.len(),
            ordered == visual_clusters(cluster_views(clusters@), rtl),
            ordered.len() == count,
            0 <= done <= count,
            glyphs@ == flattened(ordered.take(done as int)),
        decreases count - done,
    {
        let at = if rtl {
            count - 1 - done
        } else {
            done
        };
        let cluster = &clusters[at];
        assert(cluster@ == ordered[done as int]);
        let ghost before = glyphs@;
        let mut j: usize = 0;
        while j < cluster.len()
            invariant
                0 <= j <= cluster.len(),
                glyphs@ == before + cluster@.take(j as int),
            decreases cluster.len() - j,
        {
            glyphs.push(cluster[j]);
            j += 1;
            assert(cluster@.take(j as int) == cluster@.take(j - 1).push(cluster@[j - 1]));
        }
        assert(cluster@.take(cluster@.len() as int) == cluster@);
        assert(ordered.take(done + 1).drop_last() == ordered.take(done as int));
        assert(ordered.take(done + 1).last() == ordered[done as int]);
        done += 1;
    }
    assert(ordered.take(count as int) == ordered);
    glyphs
}

/// Turning a run round twice gives back the order in which it was shaped:
/// the right-to-left order of the turned clusters is the shaped order.
pub proof fn lemma_reversal_involution<T>(clusters: Seq<Seq<T>>)
    ensures
        clusters.reverse().reverse() == clusters,
        visual_glyphs(clusters.reverse(), true) == visual_glyphs(clusters, false),
{
    assert(clusters.reverse().reverse() =~= clusters);
}

/// Flattening puts the glyphs of a later group of clusters after those of
/// an earlier group.
pub proof fn lemma_flattened_concat<T>(front: Seq<Seq<T>>, back: Seq<Seq<T>>)
    ensures
        flattened(front + back) == flattened(front) + flattened(back),
    decreases back.len(),
{
    if back.len() == 0 {
        assert(front + back == front);
        assert(flattened(front) + flattened(back) == flattened(front));
    } else {
        lemma_flattened_concat(front, back.drop_last());
        assert((front + back).drop_last() == front + back.drop_last());
        assert((front + back).last() == back.last());
        assert((flattened(front) + flattened(back.drop_last())) + back.last() == flattened(front)
            + (flattened(back.drop_last()) + back.last()));
    }
}

/// Where no cluster holds more than one glyph, the visual order of a
/// right-to-left run is the shaped glyph list read backwards.
pub proof fn lemma_single_glyph_clusters_reverse<T>(clusters: Seq<Seq<T>>)
    requires
        forall|i: int| 0 <= i < clusters.len() ==> (#[trigger] clusters[i]).len() <= 1,
    ensures
        visual_glyphs(clusters, true) == visual_glyphs(clusters, false).reverse(),
    decreases clusters.len(),
{
    if clusters.len() == 0 {
        assert(clusters.reverse() =~= clusters);
        assert(flattened(clusters).reverse() =~= flattened(clusters));
    } else {
        let head = clusters.drop_last();
        let last = clusters.last();
        lemma_single_glyph_clusters_reverse(head);
        let one = Seq::<Seq<T>>::empty().push(last);
        assert(clusters.reverse() =~= one + head.reverse());
        lemma_flattened_concat(one, head.reverse());
        assert(one.drop_last() =~= Seq::<Seq<T>>::empty());
        assert(flattened(one) =~= flattened(one.drop_last()) + one.last());
        assert(flattened(one) =~= last);
        assert(last.len() <= 1);
        assert((flattened(head) + last).reverse() =~= last + flattened(head).reverse());
    }
}

} // verus!
