//! Reconciling a desired snapshot with the live control points: which
//! points to write, and with what value.
use vstd::prelude::*;

use crate::config::{Config, ConfigView};
use crate::text::opt_string;
use crate::snapshot::views;

verus! {

/// Whether desired record `d` calls for writing live point `l`: same path,
/// `l` read as a value, `d` holds a different one, and `l` is writable.
pub open spec fn selected(d: ConfigView, l: ConfigView) -> bool {
    &&& d.node == l.node
    &&& l.value is Some
    &&& d.value is Some
    &&& d.value != l.value
    &&& l.permission.writable
}

/// Live point `l` carrying the value of `d`, ready to be written.
pub open spec fn retarget(l: ConfigView, d: ConfigView) -> ConfigView {
    ConfigView { value: d.value, ..l }
}

/// The writes that `d` calls for, in the order of `live`.
pub open spec fn changes_for(d: ConfigView, live: Seq<ConfigView>) -> Seq<ConfigView>
    decreases live.len(),
{
    if live.len() == 0 {
        Seq::empty()
    } else {
        let prev = changes_for(d, live.drop_last());
        if selected(d, live.last()) {
            prev.push(retarget(live.last(), d))
        } else {
            prev
        }
    }
}

/// The writes that `desired` calls for on `live`: for each desired record in
/// turn, each live point that it selects.
pub open spec fn changes(desired: Seq<ConfigView>, live: Seq<ConfigView>) -> Seq<ConfigView>
    decreases desired.len(),
{
    if desired.len() == 0 {
        Seq::empty()
    } else {
        changes(desired.drop_last(), live) + changes_for(desired.last(), live)
    }
}

/// Whether `d` selects `l` for a write.
fn selects(d: &Config, l: &Config) -> (r: bool)
    ensures
        r == selected(d@, l@),
{
    if !(d.node == l.node) || !l.permission.writable {
        return false;
    }
    match (&d.value, &l.value) {
        (Some(dv), Some(lv)) => !(*dv == *lv),
        _ => false,
    }
}

fn clone_value(v: &Option<String>) -> (r: Option<String>)
    ensures
        opt_string(r) == opt_string(*v),
{
    match v {
        Some(s) => Some(s.clone()),
        None => None,
    }
}

/// The write-ready points for applying `desired` on `live`: for each desired
/// record, each live point with its path that read as a value, is writable
/// and differs from it, carrying the desired value.
pub fn select_changes(desired: &Vec<Config>, live: &Vec<Config>) -> (r: Vec<Config>)
    ensures
        views(r@) == changes(views(desired@), views(live@)),
{
    let ghost ds = views(desired@);
    let ghost ls = views(live@);
    let mut out: Vec<Config> = Vec::new();
    let mut i: usize = 0;
    assert(views(out@) =~= changes(ds.take(0), ls));
    while i < desired.len()
        invariant
            i <= desired.len(),
            ds == views(desired@),
            ls == views(live@),
            views(out@) == changes(ds.take(i as int), ls),
        decreases desired.len() - i,
    {
        let d = &desired[i];
        let ghost before = views(out@);
        let mut k: usize = 0;
        assert(views(out@) =~= before + changes_for(d@, ls.take(0)));
        while k < live.len()
            invariant
                k <= live.len(),
                i < desired.len(),
                d == &desired[i as int],
                ds == views(desired@),
                ls == views(live@),
                views(out@) == before + changes_for(d@, ls.take(k as int)),
            decreases live.len() - k,
        {
            let l = &live[k];
            assert(ls.take(k + 1).drop_last() =~= ls.take(k as int));
            assert(ls.take(k + 1).last() == l@);
            if selects(d, l) {
                let c = l.with_value(clone_value(&d.value));
                let ghost prev_out = out@;
                out.push(c);
                assert(c@ == retarget(l@, d@));
                assert(views(out@) =~= views(prev_out).push(c@));
                assert(changes_for(d@, ls.take(k + 1)) == changes_for(d@, ls.take(k as int)).push(
                    retarget(l@, d@),
                ));
                assert(views(out@) =~= before + changes_for(d@, ls.take(k + 1)));
            }
            k = k + 1;
        }
        proof {
            assert(ls.take(live.len() as int) =~= ls);
            assert(ds.take(i + 1).drop_last() =~= ds.take(i as int));
            assert(ds.take(i + 1).last() == d@);
        }
        i = i + 1;
    }
    assert(ds.take(desired.len() as int) =~= ds);
    out
}

/// Each write that `d` calls for carries its path and value.
proof fn lemma_changes_for_origin(d: ConfigView, live: Seq<ConfigView>)
    ensures
        forall|m: int|
            0 <= m < changes_for(d, live).len() ==> (#[trigger] changes_for(d, live)[m]).node
                == d.node && changes_for(d, live)[m].value == d.value,
    decreases live.len(),
{
    if live.len() > 0 {
        lemma_changes_for_origin(d, live.drop_last());
    }
}

/// A live point that `d` selects has a write for its path.
proof fn lemma_changes_for_selected(d: ConfigView, live: Seq<ConfigView>, k: int)
    requires
        0 <= k < live.len(),
        selected(d, live[k]),
    ensures
        exists|m: int|
            0 <= m < changes_for(d, live).len() && (#[trigger] changes_for(d, live)[m]).node
                == live[k].node,
    decreases live.len(),
{
    let cf = changes_for(d, live);
    if k == live.len() - 1 {
        assert(cf[cf.len() - 1].node == live[k].node);
    } else {
        let front = live.drop_last();
        assert(front[k] == live[k]);
        lemma_changes_for_selected(d, front, k);
        let prev = changes_for(d, front);
        let m = choose|m: int| 0 <= m < prev.len() && (#[trigger] prev[m]).node == front[k].node;
        assert(cf[m] == prev[m]);
    }
}

/// Without a selected point, `d` calls for no write.
proof fn lemma_changes_for_none(d: ConfigView, live: Seq<ConfigView>)
    requires
        forall|k: int| 0 <= k < live.len() ==> !selected(d, #[trigger] live[k]),
    ensures
        changes_for(d, live).len() == 0,
    decreases live.len(),
{
    if live.len() > 0 {
        let front = live.drop_last();
        assert forall|k: int| 0 <= k < front.len() implies !selected(d, #[trigger] front[k]) by {
            assert(front[k] == live[k]);
        }
        lemma_changes_for_none(d, front);
        assert(!selected(d, live[live.len() - 1]));
    }
}

/// Each write carries the path and value of some desired record.
proof fn lemma_changes_origin(desired: Seq<ConfigView>, live: Seq<ConfigView>)
    ensures
        forall|m: int|
            #![trigger changes(desired, live)[m]]
            0 <= m < changes(desired, live).len() ==> exists|i: int|
                0 <= i < desired.len() && (#[trigger] desired[i]).node == changes(desired, live)[m].node
                    && desired[i].value == changes(desired, live)[m].value,
    decreases desired.len(),
{
    if desired.len() > 0 {
        let front = desired.drop_last();
        let d = desired.last();
        lemma_changes_origin(front, live);
        lemma_changes_for_origin(d, live);
        let prev = changes(front, live);
        let tail = changes_for(d, live);
        let cur = changes(desired, live);
        assert forall|m: int| #![trigger cur[m]] 0 <= m < cur.len() implies exists|i: int|
            0 <= i < desired.len() && (#[trigger] desired[i]).node == cur[m].node
                && desired[i].value == cur[m].value by {
            if m < prev.len() {
                assert(cur[m] == prev[m]);
                let i = choose|i: int|
                    0 <= i < front.len() && (#[trigger] front[i]).node == prev[m].node
                        && front[i].value == prev[m].value;
                assert(desired[i] == front[i]);
            } else {
                assert(cur[m] == tail[m - prev.len()]);
                assert(desired[desired.len() - 1] == d);
            }
        }
    }
}

/// A live point that a desired record selects has a write for its path.
proof fn lemma_changes_selected(desired: Seq<ConfigView>, live: Seq<ConfigView>, i: int, k: int)
    requires
        0 <= i < desired.len(),
        0 <= k < live.len(),
        selected(desired[i], live[k]),
    ensures
        exists|m: int|
            0 <= m < changes(desired, live).len() && (#[trigger] changes(desired, live)[m]).node
                == live[k].node,
    decreases desired.len(),
{
    let front = desired.drop_last();
    let prev = changes(front, live);
    let cur = changes(desired, live);
    if i == desired.len() - 1 {
        lemma_changes_for_selected(desired[i], live, k);
        let tail = changes_for(desired[i], live);
        let m = choose|m: int| 0 <= m < tail.len() && (#[trigger] tail[m]).node == live[k].node;
        assert(cur[prev.len() + m] == tail[m]);
    } else {
        assert(front[i] == desired[i]);
        lemma_changes_selected(front, live, i, k);
        let m = choose|m: int| 0 <= m < prev.len() && (#[trigger] prev[m]).node == live[k].node;
        assert(cur[m] == prev[m]);
    }
}

/// Without a selected pair there is no write.
proof fn lemma_changes_none(desired: Seq<ConfigView>, live: Seq<ConfigView>)
    requires
        forall|i: int, k: int|
            0 <= i < desired.len() && 0 <= k < live.len() ==> !selected(
                #[trigger] desired[i],
                #[trigger] live[k],
            ),
    ensures
        changes(desired, live).len() == 0,
    decreases desired.len(),
{
    if desired.len() > 0 {
        let front = desired.drop_last();
        assert forall|i: int, k: int| 0 <= i < front.len() && 0 <= k < live.len() implies !selected(
            #[trigger] front[i],
            #[trigger] live[k],
        ) by {
            assert(front[i] == desired[i]);
        }
        lemma_changes_none(front, live);
        let d = desired[desired.len() - 1];
        assert forall|k: int| 0 <= k < live.len() implies !selected(d, #[trigger] live[k]) by {}
        lemma_changes_for_none(d, live);
    }
}

/// Applying is idempotent: once the writes that `desired` calls for on
/// `live` have all succeeded, and nothing else changed, enumerating again
/// (`relive`) and diffing the same snapshot calls for no write. This needs
/// the snapshot not to give one path two different values.
pub proof fn lemma_reapply_selects_nothing(
    desired: Seq<ConfigView>,
    live: Seq<ConfigView>,
    relive: Seq<ConfigView>,
)
    requires
        forall|i: int, j: int|
            0 <= i < desired.len() && 0 <= j < desired.len() && desired[i].node == desired[j].node
                ==> desired[i].value == desired[j].value,
        relive.len() == live.len(),
        forall|k: int|
            0 <= k < live.len() ==> (#[trigger] relive[k]).node == live[k].node
                && relive[k].permission == live[k].permission,
        forall|k: int, m: int|
            0 <= k < live.len() && 0 <= m < changes(desired, live).len() && (#[trigger] changes(
                desired,
                live,
            )[m]).node == (#[trigger] live[k]).node ==> relive[k].value == changes(
                desired,
                live,
            )[m].value,
        forall|k: int|
            0 <= k < live.len() && (forall|m: int|
                0 <= m < changes(desired, live).len() ==> (#[trigger] changes(desired, live)[m]).node
                    != live[k].node) ==> (#[trigger] relive[k]).value == live[k].value,
    ensures
        changes(desired, relive).len() == 0,
{
    let cs = changes(desired, live);
    lemma_changes_origin(desired, live);
    assert forall|i: int, k: int|
        0 <= i < desired.len() && 0 <= k < relive.len() implies !selected(
        #[trigger] desired[i],
        #[trigger] relive[k],
    ) by {
        if selected(desired[i], relive[k]) {
            let d = desired[i];
            assert(relive[k].node == live[k].node);
            if exists|m: int| 0 <= m < cs.len() && (#[trigger] cs[m]).node == live[k].node {
                let m = choose|m: int| 0 <= m < cs.len() && (#[trigger] cs[m]).node == live[k].node;
                assert(relive[k].value == cs[m].value);
                let i2 = choose|i2: int|
                    0 <= i2 < desired.len() && (#[trigger] desired[i2]).node == cs[m].node
                        && desired[i2].value == cs[m].value;
                assert(desired[i2].value == d.value);
            } else {
                assert(relive[k].value == live[k].value);
                assert(selected(d, live[k]));
                lemma_changes_selected(desired, live, i, k);
            }
        }
    }
    lemma_changes_none(desired, relive);
}

} // verus!
