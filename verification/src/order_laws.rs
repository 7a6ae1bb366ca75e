//! How sorted assets stand to each other, told from their modes and paths.

use vstd::prelude::*;
use crate::asset::{Asset, Assets, Platform};
use crate::order::{component_order, key_of, key_order, path_order, peers, text_order, Order};
use crate::package::Package;
use crate::path::{components, extension_of, name_of};

verus! {

/// The one text stands before the other: at the first place where they differ it ends, or has
/// the smaller character.
pub open spec fn text_before(a: Seq<char>, b: Seq<char>) -> bool {
    exists|n: int| #[trigger] parts_at(a, b, n)
}

/// The texts are the same up to a place at which the one ends, or has the smaller character.
pub open spec fn parts_at(a: Seq<char>, b: Seq<char>, n: int) -> bool {
    &&& 0 <= n <= a.len()
    &&& n < b.len()
    &&& forall|k: int| 0 <= k < n ==> a[k] == b[k]
    &&& n == a.len() || (a[n] as int) < (b[n] as int)
}

/// The one component stands before the other: the root before all, then a dot, then two dots,
/// then names by their text.
pub open spec fn component_before(a: Seq<char>, b: Seq<char>) -> bool {
    let root = seq!['/'];
    let dot = seq!['.'];
    let dots = seq!['.', '.'];
    if a == b || b == root {
        false
    } else if a == root {
        true
    } else if b == dot {
        false
    } else if a == dot {
        true
    } else if b == dots {
        false
    } else if a == dots {
        true
    } else {
        text_before(a, b)
    }
}

/// The one path stands before the other: where they part, it ends, or has the component that
/// stands before that of the other.
pub open spec fn path_before(a: Seq<Seq<char>>, b: Seq<Seq<char>>) -> bool {
    exists|n: int| #[trigger] paths_part_at(a, b, n)
}

/// The paths are the same up to a component at which the one ends, or stands before the other.
pub open spec fn paths_part_at(a: Seq<Seq<char>>, b: Seq<Seq<char>>, n: int) -> bool {
    &&& 0 <= n <= a.len()
    &&& n < b.len()
    &&& forall|k: int| 0 <= k < n ==> a[k] == b[k]
    &&& n == a.len() || component_before(a[n], b[n])
}

/// A text that does not stand behind another stands before it, or is the same.
proof fn lemma_text_before(a: Seq<char>, b: Seq<char>)
    ensures
        text_order(a, b) == Order::Before ==> text_before(a, b),
        text_order(a, b) == Order::Same ==> a == b,
    decreases a.len(),
{
    if a.len() == 0 || b.len() == 0 {
        if a.len() < b.len() {
            assert(parts_at(a, b, 0));
        }
        if a.len() == b.len() {
            assert(a =~= b);
        }
    } else {
        let x = a.skip(1);
        let y = b.skip(1);
        lemma_text_before(x, y);
        if (a[0] as int) < (b[0] as int) {
            assert(parts_at(a, b, 0));
        } else if a[0] == b[0] {
            assert(a =~= seq![a[0]] + x);
            assert(b =~= seq![b[0]] + y);
            if text_order(x, y) == Order::Before {
                let n = choose|n: int| #[trigger] parts_at(x, y, n);
                assert forall|k: int| 0 <= k < n + 1 implies a[k] == b[k] by {
                    if k > 0 {
                        assert(x[k - 1] == y[k - 1]);
                    }
                }
                assert(parts_at(a, b, n + 1));
            }
        }
    }
}

/// A component that does not stand behind another stands before it, or is the same.
proof fn lemma_component_before(a: Seq<char>, b: Seq<char>)
    ensures
        component_order(a, b) == Order::Before ==> component_before(a, b),
        component_order(a, b) == Order::Same ==> a == b,
{
    lemma_text_before(a, b);
    assert(seq!['.', '.'].len() == 2 && seq!['.'].len() == 1 && seq!['/'].len() == 1);
    assert(seq!['.'][0] != seq!['/'][0]);
    if a == b {
        lemma_text_same(a);
    }
}

/// A text has the same place as itself.
proof fn lemma_text_same(a: Seq<char>)
    ensures
        text_order(a, a) == Order::Same,
    decreases a.len(),
{
    if a.len() > 0 {
        lemma_text_same(a.skip(1));
    }
}

/// A path that does not stand behind another stands before it, or is the same.
proof fn lemma_path_before(a: Seq<Seq<char>>, b: Seq<Seq<char>>)
    ensures
        path_order(a, b) == Order::Before ==> path_before(a, b),
        path_order(a, b) == Order::Same ==> a == b,
    decreases a.len(),
{
    if a.len() == 0 || b.len() == 0 {
        if a.len() < b.len() {
            assert(paths_part_at(a, b, 0));
        }
        if a.len() == b.len() {
            assert(a =~= b);
        }
    } else {
        let x = a.skip(1);
        let y = b.skip(1);
        lemma_component_before(a[0], b[0]);
        lemma_path_before(x, y);
        if component_order(a[0], b[0]) == Order::Before {
            assert(paths_part_at(a, b, 0));
        } else if component_order(a[0], b[0]) == Order::Same {
            assert(a =~= seq![a[0]] + x);
            assert(b =~= seq![b[0]] + y);
            if path_order(x, y) == Order::Before {
                let n = choose|n: int| #[trigger] paths_part_at(x, y, n);
                assert forall|k: int| 0 <= k < n + 1 implies a[k] == b[k] by {
                    if k > 0 {
                        assert(x[k - 1] == y[k - 1]);
                    }
                }
                assert(paths_part_at(a, b, n + 1));
            }
        }
    }
}

/// The asset may be run.
pub open spec fn may_run(a: Asset) -> bool {
    a.c.chmod & 0o111 != 0
}

/// The asset is a dynamic library by its name.
pub open spec fn is_shared(a: Asset, platform: Platform) -> bool {
    name_of(a.c.target_path@) matches Some(name) && platform.dll_suffix@.is_suffix_of(name)
}

/// The asset may stand in front of the other: executables come last, among the rest and among
/// themselves dynamic libraries come last, then files without an extension come first and others
/// by their extension, then by their path.
pub open spec fn may_precede(a: Asset, b: Asset, platform: Platform) -> bool {
    let x = extension_of(a.c.target_path@);
    let y = extension_of(b.c.target_path@);
    let p = components(a.c.target_path@);
    let q = components(b.c.target_path@);
    &&& may_run(a) ==> may_run(b)
    &&& may_run(a) == may_run(b) ==> {
        &&& is_shared(a, platform) ==> is_shared(b, platform)
        &&& is_shared(a, platform) == is_shared(b, platform) ==> {
            &&& x is Some ==> y is Some
            &&& x is Some && x != y ==> text_before(x->0, y->0)
            &&& x == y ==> p == q || path_before(p, q)
        }
    }
}

/// The assets that are sorted may stand as they do, are those that there were, and nothing else
/// of the package changes.
pub proof fn law_sorted_assets(p: &mut Package, platform: &Platform)
    requires
        call_ensures(Package::sort_assets_by_type, (p, platform), ()),
    ensures
        ({
            let list = final(p).assets.resolved@;
            &&& forall|i: int, j: int|
                0 <= i < j < list.len() ==> may_precede(
                    #[trigger] list[i],
                    #[trigger] list[j],
                    *platform,
                )
            &&& list.to_multiset() == old(p).assets.resolved@.to_multiset()
            &&& *final(p) == (Package {
                assets: Assets {
                    unresolved: old(p).assets.unresolved,
                    resolved: final(p).assets.resolved,
                },
                ..*old(p)
            })
        }),
{
    let list = final(p).assets.resolved@;
    assert forall|i: int, j: int| 0 <= i < j < list.len() implies may_precede(
        #[trigger] list[i],
        #[trigger] list[j],
        *platform,
    ) by {
        lemma_may_precede(list[i], list[j], *platform);
    }
}

/// An asset that belongs before another, or has its place, may stand in front of it.
proof fn lemma_may_precede(a: Asset, b: Asset, platform: Platform)
    requires
        key_order(key_of(a@, platform.dll_suffix@), key_of(b@, platform.dll_suffix@))
            != Order::Behind,
    ensures
        may_precede(a, b, platform),
{
    reveal(key_order);
    let k = key_of(a@, platform.dll_suffix@);
    let l = key_of(b@, platform.dll_suffix@);
    lemma_path_before(k.path, l.path);
    if k.extension is Some && l.extension is Some {
        lemma_text_before(k.extension->0, l.extension->0);
        if k.extension == l.extension {
            lemma_text_same(k.extension->0);
        }
    }
}

/// Assets that go to the same path, and may both be run or both not, stay as they came.
pub proof fn law_sort_keeps_equals(
    p: &mut Package,
    platform: &Platform,
    path: Seq<Seq<char>>,
    runs: bool,
)
    requires
        call_ensures(Package::sort_assets_by_type, (p, platform), ()),
    ensures
        ({
            let same = |a: Asset| components(a.c.target_path@) == path && may_run(a) == runs;
            final(p).assets.resolved@.filter(same) == old(p).assets.resolved@.filter(same)
        }),
{
    let same = |a: Asset| components(a.c.target_path@) == path && may_run(a) == runs;
    let before = old(p).assets.resolved@;
    let after = final(p).assets.resolved@;
    if exists|a: Asset| #[trigger] same(a) {
        let a = choose|a: Asset| #[trigger] same(a);
        let k = key_of(a@, platform.dll_suffix@);
        let wanted = |x: Asset| key_order(key_of(x@, platform.dll_suffix@), k) == Order::Same;
        assert forall|x: Asset| #[trigger] same(x) == wanted(x) by {
            lemma_same_place(x, a, *platform);
        }
        lemma_same_filter(before, same, wanted);
        lemma_same_filter(after, same, wanted);
        assert(peers(after, k, platform.dll_suffix@) == peers(before, k, platform.dll_suffix@));
    } else {
        lemma_none(before, same);
        lemma_none(after, same);
    }
}

/// Assets have the same place if their paths are the same and both may be run or both not.
proof fn lemma_same_place(a: Asset, b: Asset, platform: Platform)
    ensures
        key_order(key_of(a@, platform.dll_suffix@), key_of(b@, platform.dll_suffix@))
            == Order::Same <==> components(a.c.target_path@) == components(b.c.target_path@)
            && may_run(a) == may_run(b),
{
    reveal(key_order);
    let k = key_of(a@, platform.dll_suffix@);
    let l = key_of(b@, platform.dll_suffix@);
    lemma_path_before(k.path, l.path);
    if k.path == l.path {
        assert(name_of(a.c.target_path@) == name_of(b.c.target_path@));
        assert(k.extension == l.extension);
        lemma_path_same(k.path);
        if k.extension is Some {
            lemma_text_same(k.extension->0);
        }
    }
}

/// A path has the same place as itself.
proof fn lemma_path_same(a: Seq<Seq<char>>)
    ensures
        path_order(a, a) == Order::Same,
    decreases a.len(),
{
    if a.len() > 0 {
        lemma_text_same(a[0]);
        lemma_path_same(a.skip(1));
    }
}

/// What is the same for each asset picks the same assets.
proof fn lemma_same_filter(
    list: Seq<Asset>,
    f: spec_fn(Asset) -> bool,
    g: spec_fn(Asset) -> bool,
)
    requires
        forall|a: Asset| #[trigger] f(a) == g(a),
    ensures
        list.filter(f) == list.filter(g),
    decreases list.len(),
{
    reveal(Seq::filter);
    if list.len() > 0 {
        lemma_same_filter(list.drop_last(), f, g);
        assert(f(list.last()) == g(list.last()));
    }
}

/// What holds of no asset picks none.
proof fn lemma_none(list: Seq<Asset>, f: spec_fn(Asset) -> bool)
    requires
        forall|a: Asset| !#[trigger] f(a),
    ensures
        list.filter(f) == Seq::<Asset>::empty(),
    decreases list.len(),
{
    reveal(Seq::filter);
    if list.len() > 0 {
        lemma_none(list.drop_last(), f);
        assert(!f(list.last()));
    }
}

} // verus!
