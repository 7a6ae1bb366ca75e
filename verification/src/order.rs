//! The order in which the assets of a package are stored.

use vstd::prelude::*;
use vstd::string::*;
use vstd::seq_lib::to_multiset_insert;
use crate::asset::{executable, names_library, Asset, AssetView, Platform};
use crate::package::Package;
use crate::path::{components, components_of, extension, extension_of};
use crate::text::{chars_of, opt_text, same_text, texts};

verus! {

/// How one thing stands to another in an order.
#[derive(Debug, Clone, Copy, PartialEq, Eq, Structural)]
pub enum Order {
    Before,
    Same,
    Behind,
}

/// How the other stands to the one.
pub open spec fn flip(o: Order) -> Order {
    match o {
        Order::Before => Order::Behind,
        Order::Same => Order::Same,
        Order::Behind => Order::Before,
    }
}

/// The first order, and where that does not tell the two apart, the second.
pub open spec fn chain(first: Order, second: Order) -> Order {
    if first == Order::Same {
        second
    } else {
        first
    }
}

/// The order of numbers.
pub open spec fn int_order(a: int, b: int) -> Order {
    if a < b {
        Order::Before
    } else if a == b {
        Order::Same
    } else {
        Order::Behind
    }
}

/// The order of texts, by their first characters that differ. A text stands before those
/// that go on where it ends.
pub open spec fn text_order(a: Seq<char>, b: Seq<char>) -> Order
    decreases a.len(),
{
    if a.len() == 0 || b.len() == 0 {
        int_order(a.len() as int, b.len() as int)
    } else {
        chain(int_order(a[0] as int, b[0] as int), text_order(a.skip(1), b.skip(1)))
    }
}

/// The kinds of components of a path, in order: the root, the two dot components, names.
pub open spec fn component_rank(c: Seq<char>) -> int {
    if c == seq!['/'] {
        0
    } else if c == seq!['.'] {
        1
    } else if c == seq!['.', '.'] {
        2
    } else {
        3
    }
}

/// The order of components of paths: by their kind, then by their text.
pub open spec fn component_order(a: Seq<char>, b: Seq<char>) -> Order {
    chain(int_order(component_rank(a), component_rank(b)), text_order(a, b))
}

/// The order of paths, by their first components that differ.
pub open spec fn path_order(a: Seq<Seq<char>>, b: Seq<Seq<char>>) -> Order
    decreases a.len(),
{
    if a.len() == 0 || b.len() == 0 {
        int_order(a.len() as int, b.len() as int)
    } else {
        chain(component_order(a[0], b[0]), path_order(a.skip(1), b.skip(1)))
    }
}

/// The order of extensions. No extension stands before any.
pub open spec fn extension_order(a: Option<Seq<char>>, b: Option<Seq<char>>) -> Order {
    match (a, b) {
        (None, None) => Order::Same,
        (None, Some(_)) => Order::Before,
        (Some(_), None) => Order::Behind,
        (Some(x), Some(y)) => text_order(x, y),
    }
}

/// The order of answers: no before yes.
pub open spec fn bool_order(a: bool, b: bool) -> Order {
    int_order(
        if a {
            1
        } else {
            0
        },
        if b {
            1
        } else {
            0
        },
    )
}

/// What decides on the place of an asset.
pub struct KeyView {
    pub executable: bool,
    pub library: bool,
    pub extension: Option<Seq<char>>,
    pub path: Seq<Seq<char>>,
}

/// What decides on the place of the given asset.
pub open spec fn key_of(a: AssetView, dll_suffix: Seq<char>) -> KeyView {
    KeyView {
        executable: executable(a.c.chmod),
        library: names_library(a.c.target_path, dll_suffix),
        extension: extension_of(a.c.target_path),
        path: components(a.c.target_path),
    }
}

/// The order of files by their type: executables last, then dynamic libraries last, then by
/// extension.
pub open spec fn type_order(a: KeyView, b: KeyView) -> Order {
    chain(
        bool_order(a.executable, b.executable),
        chain(bool_order(a.library, b.library), extension_order(a.extension, b.extension)),
    )
}

/// The order of assets: by type, then by path.
#[verifier::opaque]
pub open spec fn key_order(a: KeyView, b: KeyView) -> Order {
    chain(type_order(a, b), path_order(a.path, b.path))
}

/// The order of assets.
pub open spec fn asset_order(a: AssetView, b: AssetView, dll_suffix: Seq<char>) -> Order {
    key_order(key_of(a, dll_suffix), key_of(b, dll_suffix))
}

/// No asset stands before one that belongs before it.
pub open spec fn in_order(list: Seq<Asset>, dll_suffix: Seq<char>) -> bool {
    forall|i: int, j: int|
        0 <= i <= j < list.len() ==> asset_order(
            (#[trigger] list[i])@,
            (#[trigger] list[j])@,
            dll_suffix,
        ) != Order::Behind
}

/// The assets that have the same place as the given one, in the order of the list.
pub open spec fn peers(list: Seq<Asset>, k: KeyView, dll_suffix: Seq<char>) -> Seq<Asset> {
    list.filter(|a: Asset| key_order(key_of(a@, dll_suffix), k) == Order::Same)
}

/// `sorted` holds the assets of `list` in order, and those that have the same place as they
/// came.
pub open spec fn is_sorted_from(
    sorted: Seq<Asset>,
    list: Seq<Asset>,
    dll_suffix: Seq<char>,
) -> bool {
    &&& in_order(sorted, dll_suffix)
    &&& forall|k: KeyView| #[trigger] peers(sorted, k, dll_suffix) == peers(list, k, dll_suffix)
}

/// The order of texts is a total order.
pub proof fn lemma_text_order(a: Seq<char>, b: Seq<char>, c: Seq<char>)
    ensures
        text_order(a, a) == Order::Same,
        text_order(b, a) == flip(text_order(a, b)),
        text_order(a, b) == Order::Same ==> a == b,
        text_order(a, b) != Order::Behind && text_order(b, c) != Order::Behind ==> text_order(a, c)
            != Order::Behind,
    decreases a.len(),
{
    if a.len() > 0 {
        lemma_text_order(a.skip(1), a.skip(1), a.skip(1));
    }
    if a.len() > 0 && b.len() > 0 {
        lemma_text_order(a.skip(1), b.skip(1), b.skip(1));
        if text_order(a, b) == Order::Same {
            assert(a =~= seq![a[0]] + a.skip(1));
            assert(b =~= seq![b[0]] + b.skip(1));
        }
        if c.len() > 0 {
            lemma_text_order(a.skip(1), b.skip(1), c.skip(1));
        }
    } else if a.len() == 0 && b.len() == 0 {
        assert(a =~= b);
    }
}

/// The order of components is a total order.
pub proof fn lemma_component_order(a: Seq<char>, b: Seq<char>, c: Seq<char>)
    ensures
        component_order(a, a) == Order::Same,
        component_order(b, a) == flip(component_order(a, b)),
        component_order(a, b) == Order::Same ==> a == b,
        component_order(a, b) != Order::Behind && component_order(b, c) != Order::Behind
            ==> component_order(a, c) != Order::Behind,
{
    lemma_text_order(a, b, c);
}

/// The order of paths is a total order.
pub proof fn lemma_path_order(a: Seq<Seq<char>>, b: Seq<Seq<char>>, c: Seq<Seq<char>>)
    ensures
        path_order(a, a) == Order::Same,
        path_order(b, a) == flip(path_order(a, b)),
        path_order(a, b) == Order::Same ==> a == b,
        path_order(a, b) != Order::Behind && path_order(b, c) != Order::Behind ==> path_order(a, c)
            != Order::Behind,
    decreases a.len(),
{
    if a.len() > 0 {
        lemma_component_order(a[0], a[0], a[0]);
        lemma_path_order(a.skip(1), a.skip(1), a.skip(1));
    }
    if a.len() > 0 && b.len() > 0 {
        lemma_component_order(a[0], b[0], b[0]);
        lemma_path_order(a.skip(1), b.skip(1), b.skip(1));
        if path_order(a, b) == Order::Same {
            assert(a =~= seq![a[0]] + a.skip(1));
            assert(b =~= seq![b[0]] + b.skip(1));
        }
        if c.len() > 0 {
            lemma_component_order(a[0], b[0], c[0]);
            lemma_component_order(b[0], c[0], a[0]);
            lemma_component_order(c[0], a[0], b[0]);
            lemma_path_order(a.skip(1), b.skip(1), c.skip(1));
        }
    } else if a.len() == 0 && b.len() == 0 {
        assert(a =~= b);
    }
}

/// The order of types of files is an order in which any two can be compared.
pub proof fn lemma_type_order(a: KeyView, b: KeyView, c: KeyView)
    ensures
        type_order(a, a) == Order::Same,
        type_order(b, a) == flip(type_order(a, b)),
        type_order(a, b) != Order::Behind && type_order(b, c) != Order::Behind ==> type_order(a, c)
            != Order::Behind,
{
    if a.extension is Some && b.extension is Some {
        let (x, y) = (a.extension->0, b.extension->0);
        lemma_text_order(x, y, y);
        if c.extension is Some {
            let z = c.extension->0;
            lemma_text_order(x, y, z);
            lemma_text_order(y, z, x);
            lemma_text_order(z, x, y);
        }
    }
    if a.extension is Some {
        lemma_text_order(a.extension->0, a.extension->0, a.extension->0);
    }
}

/// The order of assets is an order in which any two can be compared.
pub proof fn lemma_key_order(a: KeyView, b: KeyView, c: KeyView)
    ensures
        key_order(a, a) == Order::Same,
        key_order(b, a) == flip(key_order(a, b)),
        key_order(a, b) != Order::Behind && key_order(b, c) != Order::Behind ==> key_order(a, c)
            != Order::Behind,
{
    reveal(key_order);
    lemma_type_order(a, b, c);
    lemma_type_order(b, c, a);
    lemma_type_order(c, a, b);
    lemma_path_order(a.path, b.path, c.path);
}

/// How two numbers stand to one another.
fn order_u32(a: u32, b: u32) -> (r: Order)
    ensures
        r == int_order(a as int, b as int),
{
    if a < b {
        Order::Before
    } else if a == b {
        Order::Same
    } else {
        Order::Behind
    }
}

/// How two characters stand to one another.
fn order_chars(a: char, b: char) -> (r: Order)
    ensures
        r == int_order(a as int, b as int),
{
    if a < b {
        Order::Before
    } else if a == b {
        Order::Same
    } else {
        Order::Behind
    }
}

/// How two lengths stand to one another.
fn order_len(a: usize, b: usize) -> (r: Order)
    ensures
        r == int_order(a as int, b as int),
{
    if a < b {
        Order::Before
    } else if a == b {
        Order::Same
    } else {
        Order::Behind
    }
}

/// How two answers stand to one another.
fn order_bools(a: bool, b: bool) -> (r: Order)
    ensures
        r == bool_order(a, b),
{
    if a == b {
        Order::Same
    } else if b {
        Order::Before
    } else {
        Order::Behind
    }
}

/// How two texts stand to one another.
fn order_texts(a: &str, b: &str) -> (r: Order)
    ensures
        r == text_order(a@, b@),
{
    let x = chars_of(a);
    let y = chars_of(b);
    let mut i: usize = 0;
    assert(a@.skip(0) =~= a@);
    assert(b@.skip(0) =~= b@);
    while i < x.len() && i < y.len()
        invariant
            x@ == a@,
            y@ == b@,
            i <= x@.len(),
            i <= y@.len(),
            text_order(a@, b@) == text_order(a@.skip(i as int), b@.skip(i as int)),
        decreases x@.len() - i,
    {
        assert(a@.skip(i as int).skip(1) =~= a@.skip(i + 1));
        assert(b@.skip(i as int).skip(1) =~= b@.skip(i + 1));
        let o = order_chars(x[i], y[i]);
        if o != Order::Same {
            return o;
        }
        i += 1;
    }
    order_len(x.len(), y.len())
}

/// The kind of a component.
fn rank_of(c: &str) -> (r: u32)
    ensures
        r == component_rank(c@),
{
    proof {
        reveal_strlit("/");
        reveal_strlit(".");
        reveal_strlit("..");
        assert("/"@ =~= seq!['/']);
        assert("."@ =~= seq!['.']);
        assert(".."@ =~= seq!['.', '.']);
    }
    if same_text(c, "/") {
        0
    } else if same_text(c, ".") {
        1
    } else if same_text(c, "..") {
        2
    } else {
        3
    }
}

/// How two components stand to one another.
fn order_components(a: &str, b: &str) -> (r: Order)
    ensures
        r == component_order(a@, b@),
{
    let o = order_u32(rank_of(a), rank_of(b));
    if o != Order::Same {
        return o;
    }
    order_texts(a, b)
}

/// How two paths, given by their components, stand to one another.
fn order_paths(a: &Vec<String>, b: &Vec<String>) -> (r: Order)
    ensures
        r == path_order(texts(a@), texts(b@)),
{
    let ghost x = texts(a@);
    let ghost y = texts(b@);
    let mut i: usize = 0;
    assert(x.skip(0) =~= x);
    assert(y.skip(0) =~= y);
    while i < a.len() && i < b.len()
        invariant
            x == texts(a@),
            y == texts(b@),
            i <= a@.len(),
            i <= b@.len(),
            path_order(x, y) == path_order(x.skip(i as int), y.skip(i as int)),
        decreases a@.len() - i,
    {
        assert(x.skip(i as int).skip(1) =~= x.skip(i + 1));
        assert(y.skip(i as int).skip(1) =~= y.skip(i + 1));
        let o = order_components(a[i].as_str(), b[i].as_str());
        if o != Order::Same {
            return o;
        }
        i += 1;
    }
    order_len(a.len(), b.len())
}

/// What decides on the place of an asset.
#[derive(Debug)]
pub struct SortKey {
    pub executable: bool,
    pub library: bool,
    pub extension: Option<String>,
    pub path: Vec<String>,
}

impl View for SortKey {
    type V = KeyView;

    open spec fn view(&self) -> KeyView {
        KeyView {
            executable: self.executable,
            library: self.library,
            extension: opt_text(self.extension),
            path: texts(self.path@),
        }
    }
}

impl SortKey {
    /// What decides on the place of the given asset.
    pub fn of(asset: &Asset, platform: &Platform) -> (r: SortKey)
        ensures
            r@ == key_of(asset@, platform.dll_suffix@),
    {
        SortKey {
            executable: asset.c.is_executable(),
            library: asset.c.is_dynamic_library(platform),
            extension: extension(asset.c.target_path.as_str()),
            path: components_of(asset.c.target_path.as_str()),
        }
    }

    /// How one asset stands to another.
    pub fn order(&self, other: &SortKey) -> (r: Order)
        ensures
            r == key_order(self@, other@),
    {
        reveal(key_order);
        let o = order_bools(self.executable, other.executable);
        if o != Order::Same {
            return o;
        }
        let o = order_bools(self.library, other.library);
        if o != Order::Same {
            return o;
        }
        let o = match (&self.extension, &other.extension) {
            (None, None) => Order::Same,
            (None, Some(_)) => Order::Before,
            (Some(_), None) => Order::Behind,
            (Some(x), Some(y)) => order_texts(x.as_str(), y.as_str()),
        };
        if o != Order::Same {
            return o;
        }
        order_paths(&self.path, &other.path)
    }
}

/// The keys are those of the assets.
spec fn keys_of(keys: Seq<SortKey>, list: Seq<Asset>, dll_suffix: Seq<char>) -> bool {
    &&& keys.len() == list.len()
    &&& forall|i: int| 0 <= i < list.len() ==> (#[trigger] keys[i])@ == key_of(list[i]@, dll_suffix)
}

/// Finds the first place in a list in order at which a key may be put.
fn find_place(
    keys: &Vec<SortKey>,
    key: &SortKey,
    Ghost(list): Ghost<Seq<Asset>>,
    Ghost(dll_suffix): Ghost<Seq<char>>,
) -> (r: usize)
    requires
        keys_of(keys@, list, dll_suffix),
        in_order(list, dll_suffix),
    ensures
        r <= keys@.len(),
        forall|i: int| 0 <= i < r ==> key_order((#[trigger] keys@[i])@, key@) == Order::Before,
        forall|i: int| r <= i < keys@.len() ==> key_order((#[trigger] keys@[i])@, key@) != Order::Before,
{
    let mut lo: usize = 0;
    let mut hi: usize = keys.len();
    while lo < hi
        invariant
            lo <= hi <= keys@.len(),
            keys_of(keys@, list, dll_suffix),
            in_order(list, dll_suffix),
            forall|i: int| 0 <= i < lo ==> key_order((#[trigger] keys@[i])@, key@) == Order::Before,
            forall|i: int|
                hi <= i < keys@.len() ==> key_order((#[trigger] keys@[i])@, key@) != Order::Before,
        decreases hi - lo,
    {
        let mid: usize = lo + (hi - lo) / 2;
        if keys[mid].order(key) == Order::Before {
            assert forall|i: int| 0 <= i <= mid implies key_order((#[trigger] keys@[i])@, key@)
                == Order::Before by {
                assert(asset_order(list[i]@, list[mid as int]@, dll_suffix) != Order::Behind);
                lemma_key_order(keys@[i]@, keys@[mid as int]@, key@);
                lemma_key_order(key@, keys@[i]@, keys@[mid as int]@);
                lemma_key_order(keys@[mid as int]@, key@, keys@[i]@);
            }
            lo = mid + 1;
        } else {
            assert forall|i: int| mid <= i < keys@.len() implies key_order(
                (#[trigger] keys@[i])@,
                key@,
            ) != Order::Before by {
                assert(asset_order(list[mid as int]@, list[i]@, dll_suffix) != Order::Behind);
                lemma_key_order(keys@[i]@, key@, keys@[mid as int]@);
                lemma_key_order(keys@[mid as int]@, keys@[i]@, key@);
                lemma_key_order(key@, keys@[mid as int]@, keys@[i]@);
            }
            hi = mid;
        }
    }
    lo
}

/// A filter takes nothing where nothing is wanted.
proof fn lemma_filter_none(list: Seq<Asset>, wanted: spec_fn(Asset) -> bool)
    requires
        forall|i: int| 0 <= i < list.len() ==> !wanted(#[trigger] list[i]),
    ensures
        list.filter(wanted) == Seq::<Asset>::empty(),
    decreases list.len(),
{
    reveal(Seq::filter);
    if list.len() > 0 {
        lemma_filter_none(list.drop_last(), wanted);
    }
    assert(list.filter(wanted) =~= Seq::empty());
}

/// An asset that is put before all that do not belong before it leaves the list in order,
/// and stands first among those with the same place.
proof fn lemma_insert(list: Seq<Asset>, a: Asset, p: int, dll_suffix: Seq<char>)
    requires
        in_order(list, dll_suffix),
        0 <= p <= list.len(),
        forall|i: int|
            0 <= i < p ==> asset_order((#[trigger] list[i])@, a@, dll_suffix) == Order::Before,
        forall|i: int|
            p <= i < list.len() ==> asset_order((#[trigger] list[i])@, a@, dll_suffix)
                != Order::Before,
    ensures
        in_order(list.insert(p, a), dll_suffix),
        forall|k: KeyView|
            #[trigger] peers(list.insert(p, a), k, dll_suffix) == peers(
                seq![a] + list,
                k,
                dll_suffix,
            ),
{
    let new = list.insert(p, a);
    let ka = key_of(a@, dll_suffix);
    assert forall|i: int, j: int| 0 <= i <= j < new.len() implies asset_order(
        (#[trigger] new[i])@,
        (#[trigger] new[j])@,
        dll_suffix,
    ) != Order::Behind by {
        let oi = if i < p { i } else { i - 1 };
        let oj = if j < p { j } else { j - 1 };
        lemma_key_order(ka, ka, ka);
        if i != p && j != p {
            assert(new[i] == list[oi] && new[j] == list[oj]);
        } else if i == p && j > p {
            assert(new[j] == list[oj]);
            lemma_key_order(key_of(list[oj]@, dll_suffix), ka, ka);
        } else if i < p && j == p {
            assert(new[i] == list[oi]);
        }
    }
    assert forall|k: KeyView|
        #[trigger] peers(new, k, dll_suffix) == peers(seq![a] + list, k, dll_suffix) by {
        let wanted = |b: Asset| key_order(key_of(b@, dll_suffix), k) == Order::Same;
        let front = list.take(p);
        let back = list.skip(p);
        assert(new =~= front + (seq![a] + back));
        assert(list =~= front + back);
        Seq::filter_distributes_over_add(front, seq![a] + back, wanted);
        Seq::filter_distributes_over_add(seq![a], back, wanted);
        Seq::filter_distributes_over_add(front, back, wanted);
        Seq::filter_distributes_over_add(seq![a], list, wanted);
        if wanted(a) {
            assert forall|i: int| 0 <= i < front.len() implies !wanted(#[trigger] front[i]) by {
                let kb = key_of(list[i]@, dll_suffix);
                assert(key_order(kb, ka) == Order::Before);
                lemma_key_order(kb, k, ka);
                lemma_key_order(ka, k, kb);
                lemma_key_order(ka, kb, k);
            }
            lemma_filter_none(front, wanted);
        } else {
            assert(!wanted(seq![a][0]));
            lemma_filter_none(seq![a], wanted);
        }
        assert(new.filter(wanted) =~= (seq![a] + list).filter(wanted));
    }
}

impl Package {
    /// similar files next to each other improve tarball compression
    pub fn sort_assets_by_type(&mut self, platform: &Platform)
        ensures
            is_sorted_from(
                final(self).assets.resolved@,
                old(self).assets.resolved@,
                platform.dll_suffix@,
            ),
            final(self).assets.resolved@.to_multiset() == old(self).assets.resolved@.to_multiset(),
            *final(self) == (Package {
                assets: crate::asset::Assets {
                    resolved: final(self).assets.resolved,
                    unresolved: old(self).assets.unresolved,
                },
                ..*old(self)
            }),
    {
        let ghost all = self.assets.resolved@;
        let ghost suffix = platform.dll_suffix@;
        let mut rest: Vec<Asset> = Vec::new();
        std::mem::swap(&mut rest, &mut self.assets.resolved);
        let mut sorted: Vec<Asset> = Vec::new();
        let mut keys: Vec<SortKey> = Vec::new();
        proof {
            assert(all.skip(all.len() as int) =~= sorted@);
        }
        while rest.len() > 0
            invariant
                suffix == platform.dll_suffix@,
                rest@.len() <= all.len(),
                rest@ == all.take(rest@.len() as int),
                keys_of(keys@, sorted@, suffix),
                in_order(sorted@, suffix),
                forall|k: KeyView|
                    #[trigger] peers(sorted@, k, suffix) == peers(
                        all.skip(rest@.len() as int),
                        k,
                        suffix,
                    ),
                sorted@.to_multiset() == all.skip(rest@.len() as int).to_multiset(),
            decreases rest@.len(),
        {
            let ghost n = rest@.len() - 1;
            let ghost behind = all.skip(n + 1);
            let ghost before = sorted@;
            if let Some(asset) = rest.pop() {
                let key = SortKey::of(&asset, platform);
                let p: usize = find_place(&keys, &key, Ghost(sorted@), Ghost(suffix));
                proof {
                    assert(asset == all[n]);
                    assert forall|i: int| 0 <= i < before.len() implies key_of(
                        (#[trigger] before[i])@,
                        suffix,
                    ) == keys@[i]@ by {}
                    lemma_insert(before, asset, p as int, suffix);
                    assert(all.skip(n) =~= seq![asset] + behind);
                    assert(all.skip(n) =~= behind.insert(0, asset));
                    assert forall|k: KeyView|
                        #[trigger] peers(before.insert(p as int, asset), k, suffix) == peers(
                            all.skip(n),
                            k,
                            suffix,
                        ) by {
                        let wanted = |b: Asset| key_order(key_of(b@, suffix), k) == Order::Same;
                        Seq::filter_distributes_over_add(seq![asset], before, wanted);
                        Seq::filter_distributes_over_add(seq![asset], behind, wanted);
                        assert(peers(before, k, suffix) == peers(behind, k, suffix));
                    }
                    to_multiset_insert(before, p as int, asset);
                    to_multiset_insert(behind, 0, asset);
                    assert(rest@ =~= all.take(n));
                }
                let ghost old_keys = keys@;
                sorted.insert(p, asset);
                keys.insert(p, key);
                assert forall|i: int| 0 <= i < sorted@.len() implies (#[trigger] keys@[i])@
                    == key_of(sorted@[i]@, suffix) by {
                    if i < p {
                        assert(keys@[i] == old_keys[i] && sorted@[i] == before[i]);
                    } else if i > p {
                        assert(keys@[i] == old_keys[i - 1] && sorted@[i] == before[i - 1]);
                    }
                }
            }
        }
        assert(all.skip(0) =~= all);
        self.assets.resolved = sorted;
    }
}

/// Assets of the same type stand next to each other: whatever stands between two of them is
/// of that type too.
pub proof fn law_similar_files_together(
    list: Seq<Asset>,
    dll_suffix: Seq<char>,
    i: int,
    j: int,
    k: int,
)
    requires
        in_order(list, dll_suffix),
        0 <= i <= j <= k < list.len(),
        type_order(key_of(list[i]@, dll_suffix), key_of(list[k]@, dll_suffix)) == Order::Same,
    ensures
        type_order(key_of(list[i]@, dll_suffix), key_of(list[j]@, dll_suffix)) == Order::Same,
{
    let a = key_of(list[i]@, dll_suffix);
    let b = key_of(list[j]@, dll_suffix);
    let c = key_of(list[k]@, dll_suffix);
    reveal(key_order);
    assert(asset_order(list[i]@, list[j]@, dll_suffix) != Order::Behind);
    assert(asset_order(list[j]@, list[k]@, dll_suffix) != Order::Behind);
    lemma_type_order(a, b, c);
    lemma_type_order(b, c, a);
    lemma_type_order(c, a, b);
    lemma_type_order(a, c, b);
}

/// The last of the peers of the last asset is that asset.
proof fn lemma_peers_last(list: Seq<Asset>, k: KeyView, dll_suffix: Seq<char>)
    requires
        list.len() > 0,
    ensures
        peers(list, k, dll_suffix) == (if key_order(key_of(list.last()@, dll_suffix), k)
            == Order::Same {
            peers(list.drop_last(), k, dll_suffix).push(list.last())
        } else {
            peers(list.drop_last(), k, dll_suffix)
        }),
{
    reveal(Seq::filter);
}

/// A peer in a list is somewhere in the list, at its place.
proof fn lemma_peer_in_list(list: Seq<Asset>, k: KeyView, dll_suffix: Seq<char>) -> (i: int)
    requires
        peers(list, k, dll_suffix).len() > 0,
    ensures
        0 <= i < list.len(),
        key_order(key_of(list[i]@, dll_suffix), k) == Order::Same,
    decreases list.len(),
{
    reveal(Seq::filter);
    if key_order(key_of(list.last()@, dll_suffix), k) == Order::Same {
        list.len() - 1
    } else {
        lemma_peer_in_list(list.drop_last(), k, dll_suffix)
    }
}

/// There is only one way to sort a list.
pub proof fn law_sorted_unique(
    a: Seq<Asset>,
    b: Seq<Asset>,
    list: Seq<Asset>,
    dll_suffix: Seq<char>,
)
    requires
        is_sorted_from(a, list, dll_suffix),
        is_sorted_from(b, list, dll_suffix),
    ensures
        a == b,
{
    assert forall|k: KeyView|
        #[trigger] peers(a, k, dll_suffix) == peers(b, k, dll_suffix) by {
        assert(peers(b, k, dll_suffix) == peers(list, k, dll_suffix));
    }
    lemma_same_peers(a, b, dll_suffix);
}

/// Two lists in order with the same peers are the same.
proof fn lemma_same_peers(a: Seq<Asset>, b: Seq<Asset>, dll_suffix: Seq<char>)
    requires
        in_order(a, dll_suffix),
        in_order(b, dll_suffix),
        forall|k: KeyView| #[trigger] peers(a, k, dll_suffix) == peers(b, k, dll_suffix),
    ensures
        a == b,
    decreases a.len(),
{
    if a.len() == 0 {
        if b.len() > 0 {
            let k = key_of(b.last()@, dll_suffix);
            lemma_key_order(k, k, k);
            lemma_peers_last(b, k, dll_suffix);
            reveal(Seq::filter);
            assert(peers(a, k, dll_suffix).len() == 0);
        }
        assert(a =~= b);
    } else {
        let ka = key_of(a.last()@, dll_suffix);
        lemma_key_order(ka, ka, ka);
        lemma_peers_last(a, ka, dll_suffix);
        assert(peers(b, ka, dll_suffix).len() > 0);
        let i = lemma_peer_in_list(b, ka, dll_suffix);
        let kb = key_of(b.last()@, dll_suffix);
        lemma_key_order(kb, kb, kb);
        lemma_peers_last(b, kb, dll_suffix);
        assert(peers(a, kb, dll_suffix) == peers(b, kb, dll_suffix));
        let j = lemma_peer_in_list(a, kb, dll_suffix);
        let ki = key_of(b[i]@, dll_suffix);
        let kj = key_of(a[j]@, dll_suffix);
        assert(asset_order(b[i]@, b[b.len() - 1]@, dll_suffix) != Order::Behind);
        assert(asset_order(a[j]@, a[a.len() - 1]@, dll_suffix) != Order::Behind);
        lemma_key_order(ka, ki, kb);
        lemma_key_order(ki, ka, kb);
        lemma_key_order(kb, kj, ka);
        lemma_key_order(kj, kb, ka);
        lemma_key_order(ka, kb, ka);
        assert(key_order(kb, ka) == Order::Same);
        lemma_peers_last(b, ka, dll_suffix);
        assert(peers(a, ka, dll_suffix).last() == a.last());
        assert(peers(b, ka, dll_suffix).last() == b.last());
        assert(a.last() == b.last());
        assert forall|k: KeyView|
            #[trigger] peers(a.drop_last(), k, dll_suffix) == peers(b.drop_last(), k, dll_suffix) by {
            lemma_peers_last(a, k, dll_suffix);
            lemma_peers_last(b, k, dll_suffix);
            assert(peers(a, k, dll_suffix) == peers(b, k, dll_suffix));
            assert(peers(a, k, dll_suffix).push(a.last()).drop_last() =~= peers(a, k, dll_suffix));
            if key_order(ka, k) == Order::Same {
                assert(peers(a.drop_last(), k, dll_suffix) =~= peers(a, k, dll_suffix).drop_last());
                assert(peers(b.drop_last(), k, dll_suffix) =~= peers(b, k, dll_suffix).drop_last());
            }
        }
        assert(in_order(a.drop_last(), dll_suffix)) by {
            assert forall|i: int, j: int| 0 <= i <= j < a.drop_last().len() implies asset_order(
                (#[trigger] a.drop_last()[i])@,
                (#[trigger] a.drop_last()[j])@,
                dll_suffix,
            ) != Order::Behind by {
                assert(asset_order(a[i]@, a[j]@, dll_suffix) != Order::Behind);
            }
        }
        assert(in_order(b.drop_last(), dll_suffix)) by {
            assert forall|i: int, j: int| 0 <= i <= j < b.drop_last().len() implies asset_order(
                (#[trigger] b.drop_last()[i])@,
                (#[trigger] b.drop_last()[j])@,
                dll_suffix,
            ) != Order::Behind by {
                assert(asset_order(b[i]@, b[j]@, dll_suffix) != Order::Behind);
            }
        }
        lemma_same_peers(a.drop_last(), b.drop_last(), dll_suffix);
        assert(a =~= a.drop_last().push(a.last()));
        assert(b =~= b.drop_last().push(b.last()));
    }
}

/// To sort a list that is sorted changes nothing.
pub proof fn law_sort_twice(
    list: Seq<Asset>,
    once: Seq<Asset>,
    twice: Seq<Asset>,
    dll_suffix: Seq<char>,
)
    requires
        is_sorted_from(once, list, dll_suffix),
        is_sorted_from(twice, once, dll_suffix),
    ensures
        twice == once,
{
    law_sorted_unique(once, twice, once, dll_suffix);
}

} // verus!
