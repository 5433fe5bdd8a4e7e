//! The index of installed applications, and how one is launched.
//!
//! The shell's list of apps covers classic programs and Store apps. Of each we keep
//! the display name, the id by which it is launched, and the icon.
use crate::state::{set_apps, AppEntry, AppIndex};
#[allow(unused_imports)]
use crate::state::{icon_model, models, EntryModel};
use crate::text::{join2, no_later, starts_with, to_lowercase};
#[allow(unused_imports)]
use crate::text::{
    ascii_lowered, in_ascii, lemma_text_le_antisymmetric, lemma_text_le_total,
    lemma_text_le_transitive, lowercase, text_le,
};
use vstd::prelude::*;

verus! {

/// The size in pixels, in both directions, at which icons are asked for.
pub const ICON_PX: i32 = 40;

/// An app as the shell lists it.
#[derive(Debug, PartialEq, Eq)]
pub struct ShellApp {
    pub name: String,
    pub parsing_name: String,
    pub icon: Option<(u32, u32, Vec<u8>)>,
}

/// Apps without a name or an id are left out.
pub open spec fn listed(name: Seq<char>, parsing_name: Seq<char>) -> bool {
    name.len() > 0 && parsing_name.len() > 0
}

/// The entry of a listed app.
pub open spec fn entry_of(a: ShellApp) -> EntryModel {
    EntryModel {
        name: a.name@,
        parsing_name: a.parsing_name@,
        lower_name: lowercase(a.name@),
        icon: icon_model(a.icon),
    }
}

/// The entry that every index has for the volume mixer.
pub open spec fn volume_mixer() -> EntryModel {
    EntryModel {
        name: "Volume mixer"@,
        parsing_name: "ms-settings:apps-volume"@,
        lower_name: "volume mixer sound audio settings"@,
        icon: None,
    }
}

/// The entries of an index, in the order in which they were found, the volume mixer last.
pub open spec fn found(items: Seq<ShellApp>) -> Seq<EntryModel> {
    items.filter(|a: ShellApp| listed(a.name@, a.parsing_name@)).map_values(
        |a: ShellApp| entry_of(a),
    ).push(volume_mixer())
}

/// Of an app with a name in ASCII, the lowercase name is spelled with small letters.
pub open spec fn spelled(e: EntryModel) -> bool {
    e == volume_mixer() || (in_ascii(e.name) ==> e.lower_name == ascii_lowered(e.name))
}

/// The entries whose lowercase name is `k`, in their order.
pub open spec fn named(list: Seq<EntryModel>, k: Seq<char>) -> Seq<EntryModel> {
    list.filter(|e: EntryModel| e.lower_name == k)
}

/// The list is in the order of the lowercase names.
pub open spec fn in_name_order(list: Seq<EntryModel>) -> bool {
    forall|i: int, j: int|
        0 <= i < j < list.len() ==> text_le(
            (#[trigger] list[i]).lower_name,
            (#[trigger] list[j]).lower_name,
        )
}

/// `after` is `before` put in the order of the lowercase names; entries of one name keep
/// the order that they had.
pub open spec fn sorted_by_name(before: Seq<EntryModel>, after: Seq<EntryModel>) -> bool {
    &&& in_name_order(after)
    &&& forall|k: Seq<char>| #[trigger] named(after, k) == named(before, k)
}

proof fn lemma_named_insert(list: Seq<EntryModel>, p: int, e: EntryModel, k: Seq<char>)
    requires
        0 <= p <= list.len(),
        forall|i: int| p <= i < list.len() ==> (#[trigger] list[i]).lower_name != e.lower_name,
    ensures
        named(list.insert(p, e), k) == named(list.push(e), k),
{
    let pred = |x: EntryModel| x.lower_name == k;
    let a = list.subrange(0, p);
    let b = list.subrange(p, list.len() as int);
    assert(list.insert(p, e) =~= a.push(e) + b);
    assert(list =~= a + b);
    Seq::filter_distributes_over_add(a.push(e), b, pred);
    Seq::filter_distributes_over_add(a, b, pred);
    a.lemma_filter_push(e, pred);
    list.lemma_filter_push(e, pred);
    if e.lower_name == k {
        assert(b.filter(pred).len() == 0) by {
            assert forall|i: int| 0 <= i < b.len() implies !pred(#[trigger] b[i]) by {
                assert(b[i] == list[p + i]);
            }
            b.lemma_all_neg_filter_empty(pred);
        }
        assert(b.filter(pred) =~= Seq::<EntryModel>::empty());
    }
    assert(list.insert(p, e).filter(pred) =~= list.push(e).filter(pred));
}

/// Puts an entry where its name belongs, after those of the same name.
fn insert_by_name(list: &mut Vec<AppEntry>, e: AppEntry)
    requires
        in_name_order(models(old(list)@)),
    ensures
        in_name_order(models(final(list)@)),
        forall|k: Seq<char>| #[trigger] named(models(final(list)@), k) == named(
            models(old(list)@).push(e@),
            k,
        ),
        exists|p: int|
            0 <= p <= old(list)@.len() && models(final(list)@) == #[trigger] models(
                old(list)@,
            ).insert(p, e@),
{
    let ghost before = models(list@);
    let mut lo: usize = 0;
    let mut hi: usize = list.len();
    while lo < hi
        invariant
            lo <= hi <= list@.len(),
            before == models(list@),
            in_name_order(before),
            forall|i: int| 0 <= i < lo ==> text_le((#[trigger] before[i]).lower_name, e.lower_name@),
            forall|i: int|
                hi <= i < before.len() ==> !text_le(
                    (#[trigger] before[i]).lower_name,
                    e.lower_name@,
                ),
        decreases hi - lo,
    {
        let mid: usize = lo + (hi - lo) / 2;
        assert(before[mid as int].lower_name == list@[mid as int].lower_name@);
        if no_later(list[mid].lower_name.as_str(), e.lower_name.as_str()) {
            proof {
                assert forall|i: int| 0 <= i < mid + 1 implies text_le(
                    (#[trigger] before[i]).lower_name,
                    e.lower_name@,
                ) by {
                    if i < mid {
                        lemma_text_le_transitive(
                            before[i].lower_name,
                            before[mid as int].lower_name,
                            e.lower_name@,
                        );
                    }
                }
            }
            lo = mid + 1;
        } else {
            proof {
                assert forall|i: int| mid <= i < before.len() implies !text_le(
                    (#[trigger] before[i]).lower_name,
                    e.lower_name@,
                ) by {
                    if mid < i && text_le(before[i].lower_name, e.lower_name@) {
                        lemma_text_le_transitive(
                            before[mid as int].lower_name,
                            before[i].lower_name,
                            e.lower_name@,
                        );
                    }
                }
            }
            hi = mid;
        }
    }
    let ghost m = e@;
    list.insert(lo, e);
    proof {
        let after = models(list@);
        assert(after =~= before.insert(lo as int, m));
        lemma_text_le_total(m.lower_name, m.lower_name);
        assert forall|i: int| lo <= i < before.len() implies text_le(
            m.lower_name,
            (#[trigger] before[i]).lower_name,
        ) && before[i].lower_name != m.lower_name by {
            lemma_text_le_total(m.lower_name, before[i].lower_name);
        }
        assert forall|i: int, j: int| 0 <= i < j < after.len() implies text_le(
            (#[trigger] after[i]).lower_name,
            (#[trigger] after[j]).lower_name,
        ) by {
            let x = if i < lo {
                i
            } else {
                i - 1
            };
            let y = if j < lo {
                j
            } else {
                j - 1
            };
            if i == lo {
                assert(after[j] == before[j - 1]);
            } else if j == lo {
                assert(after[i] == before[i]);
            } else {
                assert(after[i] == before[x] && after[j] == before[y]);
            }
        }
        assert forall|k: Seq<char>| #[trigger] named(after, k) == named(before.push(m), k) by {
            lemma_named_insert(before, lo as int, m, k);
        }
    }
}

proof fn lemma_spelled_insert(before: Seq<EntryModel>, after: Seq<EntryModel>, e: EntryModel)
    requires
        exists|p: int| 0 <= p <= before.len() && after == #[trigger] before.insert(p, e),
        forall|k: int| 0 <= k < before.len() ==> spelled(#[trigger] before[k]),
        spelled(e),
    ensures
        forall|k: int| 0 <= k < after.len() ==> spelled(#[trigger] after[k]),
{
    let p = choose|p: int| 0 <= p <= before.len() && after == #[trigger] before.insert(p, e);
    assert forall|k: int| 0 <= k < after.len() implies spelled(#[trigger] after[k]) by {
        if k > p {
            assert(after[k] == before[k - 1]);
        } else if k < p {
            assert(after[k] == before[k]);
        }
    }
}

/// Whether an app of the shell's list belongs in the index.
pub fn is_listed(name: &str, parsing_name: &str) -> (r: bool)
    ensures
        r == listed(name@, parsing_name@),
{
    !name.is_empty() && !parsing_name.is_empty()
}

/// The index of the apps that the shell lists, and of the volume mixer, in the order
/// of their lowercase names.
pub fn build_index(items: Vec<ShellApp>) -> (r: Vec<AppEntry>)
    ensures
        sorted_by_name(found(items@), models(r@)),
        forall|k: int| 0 <= k < r@.len() ==> spelled((#[trigger] r@[k])@),
        forall|j: int|
            0 <= j < items@.len() && (#[trigger] items@[j]).name@.len() > 0
                && items@[j].parsing_name@.len() > 0 ==> exists|k: int|
                0 <= k < r@.len() && (#[trigger] r@[k])@.name == items@[j].name@
                    && r@[k]@.parsing_name == items@[j].parsing_name@ && same_icon(
                    r@[k]@.icon,
                    items@[j].icon,
                ),
{
    let mut r: Vec<AppEntry> = Vec::new();
    let ghost keep = |a: ShellApp| listed(a.name@, a.parsing_name@);
    let ghost entry = |a: ShellApp| entry_of(a);
    let ghost mut done: Seq<EntryModel> = Seq::empty();
    let ghost all = items@;
    proof {
        assert(models(r@) =~= Seq::<EntryModel>::empty());
    }
    for a in it: items
        invariant
            it.seq() == all,
            keep == (|a: ShellApp| listed(a.name@, a.parsing_name@)),
            entry == (|a: ShellApp| entry_of(a)),
            done == all.take(it.index() as int).filter(keep).map_values(entry),
            in_name_order(models(r@)),
            forall|k: Seq<char>| #[trigger] named(models(r@), k) == named(done, k),
            forall|k: int| 0 <= k < r@.len() ==> spelled((#[trigger] r@[k])@),
    {
        let ghost i = it.index() as int;
        let ghost before = all.take(i);
        proof {
            assert(all.take(i + 1) =~= before.push(a));
            before.lemma_filter_push(a, keep);
        }
        if is_listed(a.name.as_str(), a.parsing_name.as_str()) {
            let ghost m = entry_of(a);
            let ghost old_r = models(r@);
            let lower_name = to_lowercase(a.name.as_str());
            let e = AppEntry { lower_name, name: a.name, parsing_name: a.parsing_name, icon: a.icon };
            assert(e@ == m);
            insert_by_name(&mut r, e);
            proof {
                lemma_spelled_insert(old_r, models(r@), m);
                assert forall|k: int| 0 <= k < r@.len() implies spelled((#[trigger] r@[k])@) by {
                    assert(models(r@)[k] == r@[k]@);
                }
                let next = done.push(m);
                assert(all.take(i + 1).filter(keep).map_values(entry) =~= next);
                assert forall|k: Seq<char>| #[trigger] named(models(r@), k) == named(next, k) by {
                    let pred = |x: EntryModel| x.lower_name == k;
                    assert(named(old_r, k) == named(done, k));
                    old_r.lemma_filter_push(m, pred);
                    done.lemma_filter_push(m, pred);
                }
                done = next;
            }
        }
    }
    let mixer = AppEntry {
        name: "Volume mixer".to_owned(),
        lower_name: "volume mixer sound audio settings".to_owned(),
        parsing_name: "ms-settings:apps-volume".to_owned(),
        icon: None,
    };
    assert(mixer@ =~= volume_mixer());
    let ghost old_r = models(r@);
    insert_by_name(&mut r, mixer);
    proof {
        lemma_spelled_insert(old_r, models(r@), volume_mixer());
        assert forall|k: int| 0 <= k < r@.len() implies spelled((#[trigger] r@[k])@) by {
            assert(models(r@)[k] == r@[k]@);
        }
        assert(all.take(all.len() as int) == all);
        let next = done.push(volume_mixer());
        assert(next == found(all));
        assert forall|k: Seq<char>| #[trigger] named(models(r@), k) == named(next, k) by {
            let pred = |x: EntryModel| x.lower_name == k;
            assert(named(old_r, k) == named(done, k));
            old_r.lemma_filter_push(volume_mixer(), pred);
            done.lemma_filter_push(volume_mixer(), pred);
        }
        assert forall|j: int|
            0 <= j < all.len() && (#[trigger] all[j]).name@.len() > 0 && all[j].parsing_name@.len()
                > 0 implies exists|k: int|
            0 <= k < r@.len() && (#[trigger] r@[k])@.name == all[j].name@ && r@[k]@.parsing_name
                == all[j].parsing_name@ && same_icon(r@[k]@.icon, all[j].icon) by {
            every_named_app_is_indexed(all, models(r@), j);
            let k = choose|k: int|
                0 <= k < models(r@).len() && (#[trigger] models(r@)[k]).name == all[j].name@
                    && models(r@)[k].parsing_name == all[j].parsing_name@ && models(r@)[k].lower_name
                    == lowercase(all[j].name@) && same_icon(models(r@)[k].icon, all[j].icon);
            assert(r@[k]@ == models(r@)[k]);
        }
    }
    r
}

/// The apps to index, given the shell's list; nothing if the list could not be had.
pub fn collect(enumerated: Option<Vec<ShellApp>>) -> (r: Vec<AppEntry>)
    ensures
        enumerated is None ==> r@.len() == 0,
        enumerated matches Some(items) ==> sorted_by_name(found(items@), models(r@)),
        forall|k: int| 0 <= k < r@.len() ==> spelled((#[trigger] r@[k])@),
{
    match enumerated {
        Some(items) => build_index(items),
        None => Vec::new(),
    }
}

/// Builds the index anew and publishes it.
pub fn index_into_global(index: &mut AppIndex, enumerated: Option<Vec<ShellApp>>)
    ensures
        enumerated is None ==> final(index).list@.len() == 0,
        enumerated matches Some(items) ==> sorted_by_name(
            found(items@),
            models(final(index).list@),
        ),
        forall|k: int|
            0 <= k < final(index).list@.len() ==> spelled((#[trigger] final(index).list@[k])@),
        final(index).generation == (old(index).generation + 1) % 0x1_0000_0000_0000_0000,
{
    let list = collect(enumerated);
    set_apps(index, list);
}

/// An order by name is fully determined by what it was made from.
pub proof fn order_by_name_is_unique(
    before: Seq<EntryModel>,
    a: Seq<EntryModel>,
    b: Seq<EntryModel>,
)
    requires
        sorted_by_name(before, a),
        sorted_by_name(before, b),
    ensures
        a == b,
{
    assert forall|k: Seq<char>| #[trigger] named(a, k) == named(b, k) by {
        assert(named(a, k) == named(before, k));
        assert(named(b, k) == named(before, k));
    }
    lemma_order_unique(a, b);
}

proof fn lemma_order_unique(a: Seq<EntryModel>, b: Seq<EntryModel>)
    requires
        in_name_order(a),
        in_name_order(b),
        forall|k: Seq<char>| #[trigger] named(a, k) == named(b, k),
    ensures
        a == b,
    decreases a.len(),
{
    if a.len() == 0 {
        if b.len() > 0 {
            lemma_named_last(b);
            assert(named(a, b.last().lower_name) =~= Seq::<EntryModel>::empty());
        }
        assert(a =~= b);
    } else {
        lemma_named_last(a);
        let ka = a.last().lower_name;
        assert(named(b, ka) == named(a, ka));
        lemma_named_is_within(b, ka);
        let kb = b.last().lower_name;
        lemma_named_last(b);
        assert(named(b, kb) == named(a, kb));
        lemma_named_is_within(a, kb);
        lemma_last_is_greatest(a, kb);
        lemma_last_is_greatest(b, ka);
        lemma_text_le_antisymmetric(ka, kb);
        assert(named(a, ka).last() == a.last());
        assert(named(b, ka).last() == b.last());
        let x = a.drop_last();
        let y = b.drop_last();
        assert forall|k: Seq<char>| #[trigger] named(x, k) == named(y, k) by {
            assert(named(a, k) == named(b, k));
            if k == ka {
                assert(named(x, k) =~= named(a, k).drop_last());
                assert(named(y, k) =~= named(b, k).drop_last());
            }
        }
        lemma_order_unique(x, y);
        assert(a =~= x.push(a.last()));
        assert(b =~= y.push(b.last()));
    }
}

proof fn lemma_named_last(list: Seq<EntryModel>)
    requires
        list.len() > 0,
    ensures
        named(list, list.last().lower_name).len() > 0,
        named(list, list.last().lower_name).last() == list.last(),
        named(list, list.last().lower_name).drop_last() == named(
            list.drop_last(),
            list.last().lower_name,
        ),
        forall|k: Seq<char>|
            k != list.last().lower_name ==> #[trigger] named(list, k) == named(list.drop_last(), k),
{
    reveal_with_fuel(Seq::filter, 1);
    let k = list.last().lower_name;
    assert(named(list, k).drop_last() =~= named(list.drop_last(), k));
}

/// A name under which something is found is the name of an entry.
proof fn lemma_named_is_within(list: Seq<EntryModel>, k: Seq<char>)
    requires
        named(list, k).len() > 0,
    ensures
        exists|i: int| 0 <= i < list.len() && (#[trigger] list[i]).lower_name == k,
    decreases list.len(),
{
    reveal_with_fuel(Seq::filter, 1);
    if list.len() > 0 {
        if list.last().lower_name == k {
            assert(list[list.len() - 1].lower_name == k);
        } else {
            lemma_named_is_within(list.drop_last(), k);
            let i = choose|i: int|
                0 <= i < list.drop_last().len() && (#[trigger] list.drop_last()[i]).lower_name == k;
            assert(list[i].lower_name == k);
        }
    }
}

proof fn lemma_last_is_greatest(list: Seq<EntryModel>, k: Seq<char>)
    requires
        in_name_order(list),
        exists|i: int| 0 <= i < list.len() && (#[trigger] list[i]).lower_name == k,
    ensures
        text_le(k, list.last().lower_name),
{
    let i = choose|i: int| 0 <= i < list.len() && (#[trigger] list[i]).lower_name == k;
    lemma_text_le_total(k, k);
    if i < list.len() - 1 {
        assert(text_le(list[i].lower_name, list[list.len() - 1].lower_name));
    }
}

/// The icon `held` is the icon `given`: same width, height and pixels, and none exactly if
/// none was given.
pub open spec fn same_icon(
    held: Option<(u32, u32, Seq<u8>)>,
    given: Option<(u32, u32, Vec<u8>)>,
) -> bool {
    match given {
        Some((w, h, p)) => held == Some((w, h, p@)),
        None => held is None,
    }
}

proof fn lemma_indexed_is_found(before: Seq<EntryModel>, after: Seq<EntryModel>, x: EntryModel)
    requires
        sorted_by_name(before, after),
    ensures
        after.contains(x) <==> before.contains(x),
{
    let k = x.lower_name;
    let pred = |e: EntryModel| e.lower_name == k;
    assert(named(after, k) == named(before, k));
    if after.contains(x) {
        let i = choose|i: int| 0 <= i < after.len() && after[i] == x;
        after.lemma_filter_contains(pred, i);
        before.lemma_filter_contains_rev(pred, x);
    }
    if before.contains(x) {
        let i = choose|i: int| 0 <= i < before.len() && before[i] == x;
        before.lemma_filter_contains(pred, i);
        after.lemma_filter_contains_rev(pred, x);
    }
}

/// Every app of the shell's list that has a name and an id is in the index, with its name,
/// its id and its icon.
pub proof fn every_named_app_is_indexed(items: Seq<ShellApp>, out: Seq<EntryModel>, j: int)
    requires
        sorted_by_name(found(items), out),
        0 <= j < items.len(),
        items[j].name@.len() > 0,
        items[j].parsing_name@.len() > 0,
    ensures
        exists|k: int|
            0 <= k < out.len() && (#[trigger] out[k]).name == items[j].name@ && out[k].parsing_name
                == items[j].parsing_name@ && out[k].lower_name == lowercase(items[j].name@)
                && same_icon(out[k].icon, items[j].icon),
{
    let keep = |a: ShellApp| listed(a.name@, a.parsing_name@);
    let entry = |a: ShellApp| entry_of(a);
    let kept = items.filter(keep);
    items.lemma_filter_contains(keep, j);
    let i = choose|i: int| 0 <= i < kept.len() && kept[i] == items[j];
    let x = entry_of(items[j]);
    assert(kept.map_values(entry)[i] == x);
    assert(found(items)[i] == x);
    assert(found(items).contains(x));
    lemma_indexed_is_found(found(items), out, x);
    let k = choose|k: int| 0 <= k < out.len() && out[k] == x;
    assert(out[k].name == items[j].name@);
}

/// Every entry of the index is that of an app of the shell's list, or of the volume mixer.
pub proof fn nothing_else_is_indexed(items: Seq<ShellApp>, out: Seq<EntryModel>, k: int)
    requires
        sorted_by_name(found(items), out),
        0 <= k < out.len(),
    ensures
        (out[k].name == "Volume mixer"@ && out[k].parsing_name == "ms-settings:apps-volume"@
            && out[k].lower_name == "volume mixer sound audio settings"@ && out[k].icon is None)
            || exists|j: int|
            0 <= j < items.len() && (#[trigger] items[j]).name@.len() > 0
                && items[j].parsing_name@.len() > 0 && out[k].name == items[j].name@
                && out[k].parsing_name == items[j].parsing_name@ && out[k].lower_name == lowercase(
                items[j].name@,
            ) && same_icon(out[k].icon, items[j].icon),
{
    let keep = |a: ShellApp| listed(a.name@, a.parsing_name@);
    let entry = |a: ShellApp| entry_of(a);
    let kept = items.filter(keep);
    let x = out[k];
    assert(out.contains(x));
    lemma_indexed_is_found(found(items), out, x);
    let i = choose|i: int| 0 <= i < found(items).len() && found(items)[i] == x;
    if i < kept.len() {
        assert(found(items)[i] == entry_of(kept[i]));
        assert(kept.contains(kept[i]));
        items.lemma_filter_contains_rev(keep, kept[i]);
        items.lemma_filter_pred(keep, i);
        let j = choose|j: int| 0 <= j < items.len() && items[j] == kept[i];
        assert(items[j].name@.len() > 0);
    }
}

proof fn lemma_count_by_name(list: Seq<EntryModel>, x: EntryModel)
    ensures
        list.to_multiset().count(x) == named(list, x.lower_name).to_multiset().count(x),
    decreases list.len(),
{
    broadcast use vstd::seq_lib::group_to_multiset_ensures;

    let pred = |e: EntryModel| e.lower_name == x.lower_name;
    if list.len() == 0 {
        assert(list.filter(pred) =~= list);
    } else {
        let a = list.drop_last();
        lemma_count_by_name(a, x);
        assert(list =~= a.push(list.last()));
        a.lemma_filter_push(list.last(), pred);
        if pred(list.last()) {
            assert(named(list, x.lower_name) == named(a, x.lower_name).push(list.last()));
        }
    }
}

/// No app is lost or listed twice: the index has one entry for each app of the shell's list
/// that has a name and an id, and one for the volume mixer.
pub proof fn index_counts_each_app_once(items: Seq<ShellApp>, out: Seq<EntryModel>)
    requires
        sorted_by_name(found(items), out),
    ensures
        out.len() == items.filter(
            |a: ShellApp| a.name@.len() > 0 && a.parsing_name@.len() > 0,
        ).len() + 1,
{
    broadcast use vstd::seq_lib::group_to_multiset_ensures;

    let all = found(items);
    assert forall|x: EntryModel| all.to_multiset().count(x) == out.to_multiset().count(x) by {
        lemma_count_by_name(all, x);
        lemma_count_by_name(out, x);
        assert(named(out, x.lower_name) == named(all, x.lower_name));
    }
    assert(all.to_multiset() =~= out.to_multiset());
    assert(all.to_multiset().len() == all.len());
    assert(out.to_multiset().len() == out.len());
    let p = |a: ShellApp| listed(a.name@, a.parsing_name@);
    let q = |a: ShellApp| a.name@.len() > 0 && a.parsing_name@.len() > 0;
    assert(p =~= q);
    assert(items.filter(p) == items.filter(q));
}

/// An entry that stands before another has no later a lowercase name: the first character
/// in which the two differ is the smaller one, or the name ends before.
pub proof fn index_is_in_name_order(before: Seq<EntryModel>, out: Seq<EntryModel>, i: int, j: int)
    requires
        sorted_by_name(before, out),
        0 <= i < j < out.len(),
    ensures
        exists|n: int|
            0 <= n <= out[i].lower_name.len() && n <= out[j].lower_name.len()
                && #[trigger] out[i].lower_name.take(n) == out[j].lower_name.take(n) && (n
                == out[i].lower_name.len() || (n < out[j].lower_name.len() && out[i].lower_name[n]
                < out[j].lower_name[n])),
{
    assert(text_le(out[i].lower_name, out[j].lower_name));
    crate::text::order_is_lexicographic(out[i].lower_name, out[j].lower_name);
}

/// What launches an app.
#[derive(Debug, PartialEq, Eq)]
pub struct Launch {
    /// The file that the shell opens.
    pub file: String,
    /// Its parameters.
    pub params: Option<String>,
    /// What is launched, for the log.
    pub target: String,
}

/// The id names a page of the Settings app.
pub open spec fn is_settings_page(app_id: Seq<char>) -> bool {
    "ms-settings:"@.is_prefix_of(app_id)
}

/// The shell's path of an app.
pub open spec fn shell_path(app_id: Seq<char>) -> Seq<char> {
    "shell:AppsFolder\\"@ + app_id
}

/// What launches the app of the given id. A page of the Settings app is opened as it
/// is. Any other app is left to `explorer.exe`, so that it starts as the normal user
/// even when we run elevated.
pub fn launch(app_id: &str) -> (r: Launch)
    ensures
        is_settings_page(app_id@) ==> r.file@ == app_id@ && r.params is None && r.target@
            == app_id@,
        !is_settings_page(app_id@) ==> r.file@ == "explorer.exe"@ && r.params is Some
            && r.params->0@ == shell_path(app_id@) && r.target@ == shell_path(app_id@),
{
    if starts_with(app_id, "ms-settings:") {
        Launch { file: app_id.to_owned(), params: None, target: app_id.to_owned() }
    } else {
        let target = join2("shell:AppsFolder\\", app_id);
        Launch { file: "explorer.exe".to_owned(), params: Some(target.clone()), target }
    }
}

/// Different apps are launched by different means.
pub proof fn launches_are_told_apart(a: Seq<char>, b: Seq<char>)
    ensures
        shell_path(a) == shell_path(b) ==> a == b,
{
    let p = "shell:AppsFolder\\"@;
    if shell_path(a) == shell_path(b) {
        assert(a =~= shell_path(a).skip(p.len() as int));
        assert(b =~= shell_path(b).skip(p.len() as int));
    }
}

/// The length of the buffer for the pixels of a bitmap, four bytes each; `None` if the
/// bitmap could not be described or has no pixels.
pub fn bitmap_buffer_len(described: bool, width: i32, height: i32) -> (r: Option<usize>)
    requires
        width > 0 && height > 0 ==> width * height * 4 <= i32::MAX,
    ensures
        r is Some <==> described && width > 0 && height > 0,
        r matches Some(n) ==> n == width * height * 4,
{
    if !described || width <= 0 || height <= 0 {
        None
    } else {
        assert(0 <= width * height <= i32::MAX) by (nonlinear_arith)
            requires
                width > 0,
                height > 0,
                width * height * 4 <= i32::MAX,
        ;
        Some((width * height * 4) as usize)
    }
}

/// Some whole pixel of the buffer is not fully transparent.
pub open spec fn any_alpha(buf: Seq<u8>) -> bool {
    exists|i: int| #![trigger buf[4 * i + 3]] 0 <= i < buf.len() / 4 && buf[4 * i + 3] != 0
}

/// A buffer of BGRA pixels as RGBA. If it carries no alpha at all, it is made opaque, so
/// that it does not render invisible. Bytes after the last whole pixel stay.
pub open spec fn rgba(buf: Seq<u8>) -> Seq<u8> {
    Seq::new(
        buf.len(),
        |j: int|
            if j / 4 >= buf.len() / 4 {
                buf[j]
            } else if j % 4 == 0 {
                buf[j + 2]
            } else if j % 4 == 2 {
                buf[j - 2]
            } else if j % 4 == 3 && !any_alpha(buf) {
                255
            } else {
                buf[j]
            },
    )
}

/// The BGRA pixels of a buffer as RGBA.
pub fn to_rgba(buf: Vec<u8>) -> (r: Vec<u8>)
    ensures
        r@ == rgba(buf@),
{
    let ghost orig = buf@;
    let mut buf = buf;
    let n: usize = buf.len() / 4;
    let mut alpha = false;
    let mut i: usize = 0;
    while i < n
        invariant
            i <= n,
            n == orig.len() / 4,
            buf@.len() == orig.len(),
            orig.len() <= usize::MAX,
            alpha <==> exists|k: int| #![trigger orig[4 * k + 3]] 0 <= k < i && orig[4 * k + 3] != 0,
            forall|j: int|
                0 <= j < buf@.len() ==> #[trigger] buf@[j] == if j / 4 >= i {
                    orig[j]
                } else if j % 4 == 0 {
                    orig[j + 2]
                } else if j % 4 == 2 {
                    orig[j - 2]
                } else {
                    orig[j]
                },
        decreases n - i,
    {
        let p: usize = 4 * i;
        let b: u8 = buf[p];
        let r: u8 = buf[p + 2];
        let a: u8 = buf[p + 3];
        assert(a == orig[4 * i + 3]);
        buf.set(p, r);
        buf.set(p + 2, b);
        if a != 0 {
            alpha = true;
        }
        i = i + 1;
    }
    if !alpha {
        let mut i: usize = 0;
        while i < n
            invariant
                i <= n,
                n == orig.len() / 4,
                buf@.len() == orig.len(),
                orig.len() <= usize::MAX,
                forall|j: int|
                    0 <= j < buf@.len() ==> #[trigger] buf@[j] == if j / 4 >= n {
                        orig[j]
                    } else if j % 4 == 0 {
                        orig[j + 2]
                    } else if j % 4 == 2 {
                        orig[j - 2]
                    } else if j % 4 == 3 && j / 4 < i {
                        255
                    } else {
                        orig[j]
                    },
            decreases n - i,
        {
            buf.set(4 * i + 3, 255);
            i = i + 1;
        }
    }
    assert(buf@ =~= rgba(orig));
    buf
}

/// The icon made of what was read of a bitmap: its size, and the number of rows and
/// the pixels that came; `None` if no row came.
pub fn bitmap_to_rgba(width: u32, height: u32, rows: i32, pixels: Vec<u8>) -> (r: Option<
    (u32, u32, Vec<u8>),
>)
    ensures
        r is Some <==> rows != 0,
        icon_model(r) == if rows == 0 {
            None
        } else {
            Some((width, height, rgba(pixels@)))
        },
{
    if rows == 0 {
        None
    } else {
        Some((width, height, to_rgba(pixels)))
    }
}

/// Every pixel of an icon shows: unless some pixel has alpha of its own, all are opaque.
pub proof fn icon_is_visible(buf: Seq<u8>)
    requires
        buf.len() >= 4,
    ensures
        any_alpha(rgba(buf)),
{
    if any_alpha(buf) {
        let i = choose|i: int|
            #![trigger buf[4 * i + 3]]
            0 <= i < buf.len() / 4 && buf[4 * i + 3] != 0;
        assert(rgba(buf)[4 * i + 3] == buf[4 * i + 3]);
    } else {
        let i: int = 0;
        assert(rgba(buf)[4 * i + 3] == 255);
    }
}

/// Swapping the channels twice gives back a buffer that has alpha.
pub proof fn rgba_undoes_itself(buf: Seq<u8>)
    requires
        any_alpha(buf),
    ensures
        rgba(rgba(buf)) == buf,
{
    let out = rgba(buf);
    let i = choose|i: int|
        #![trigger buf[4 * i + 3]]
        0 <= i < buf.len() / 4 && buf[4 * i + 3] != 0;
    assert(out[4 * i + 3] == buf[4 * i + 3]);
    assert(any_alpha(out));
    assert(rgba(out) =~= buf);
}

/// Of every pixel the first and the third channel change places, and the second stays. The
/// fourth stays if some pixel has alpha, and is 255 for all if none has.
pub proof fn channels_of_a_pixel(buf: Seq<u8>, i: int)
    requires
        0 <= i < buf.len() / 4,
    ensures
        rgba(buf).len() == buf.len(),
        rgba(buf)[4 * i] == buf[4 * i + 2],
        rgba(buf)[4 * i + 1] == buf[4 * i + 1],
        rgba(buf)[4 * i + 2] == buf[4 * i],
        (exists|j: int| 0 <= j < buf.len() / 4 && #[trigger] buf[4 * j + 3] != 0) ==> rgba(
            buf,
        )[4 * i + 3] == buf[4 * i + 3],
        (forall|j: int| 0 <= j < buf.len() / 4 ==> #[trigger] buf[4 * j + 3] == 0) ==> rgba(
            buf,
        )[4 * i + 3] == 255,
{
}

/// An id is a page of the Settings app exactly if it begins with "ms-settings:"; other apps
/// are found under the shell's path.
pub proof fn settings_pages_begin_alike(id: Seq<char>)
    ensures
        is_settings_page(id) <==> id.len() >= 12 && id.take(12) == seq![
            'm',
            's',
            '-',
            's',
            'e',
            't',
            't',
            'i',
            'n',
            'g',
            's',
            ':',
        ],
        shell_path(id).len() == 17 + id.len(),
        shell_path(id).skip(17) == id,
{
    reveal_strlit("ms-settings:");
    reveal_strlit("shell:AppsFolder\\");
    let p = seq!['m', 's', '-', 's', 'e', 't', 't', 'i', 'n', 'g', 's', ':'];
    assert("ms-settings:"@ =~= p);
    if id.len() >= 12 {
        assert(id.take(12) == id.subrange(0, 12));
    }
    assert(shell_path(id).skip(17) =~= id);
}

} // verus!
