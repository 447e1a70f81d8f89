//! The asset packs that can be spawned into the world: which files are models and previews,
//! grouped by pack and by name, both in alphabetical order.

use vstd::prelude::*;

use crate::text::{chars_of, push_chars};

verus! {

/// Whether `a` comes before `b` alphabetically (by code point), comparing from index `i` on.
pub open spec fn lex_less_from(a: Seq<char>, b: Seq<char>, i: int) -> bool
    decreases a.len() - i,
{
    if i < 0 || i >= a.len() {
        0 <= i < b.len()
    } else if i >= b.len() {
        false
    } else if a[i] != b[i] {
        (a[i] as int) < (b[i] as int)
    } else {
        lex_less_from(a, b, i + 1)
    }
}

/// Whether `a` comes before `b` alphabetically (by code point), as strings compare.
pub open spec fn lex_less(a: Seq<char>, b: Seq<char>) -> bool {
    lex_less_from(a, b, 0)
}

proof fn lemma_lex_irreflexive(a: Seq<char>, i: int)
    requires
        0 <= i,
    ensures
        !lex_less_from(a, a, i),
    decreases a.len() - i,
{
    if i < a.len() {
        lemma_lex_irreflexive(a, i + 1);
    }
}

proof fn lemma_lex_transitive(a: Seq<char>, b: Seq<char>, c: Seq<char>, i: int)
    requires
        0 <= i,
        lex_less_from(a, b, i),
        lex_less_from(b, c, i),
    ensures
        lex_less_from(a, c, i),
    decreases a.len() - i,
{
    if i < a.len() && i < b.len() && i < c.len() && a[i] == b[i] && b[i] == c[i] {
        lemma_lex_transitive(a, b, c, i + 1);
    }
}

proof fn lemma_lex_total(a: Seq<char>, b: Seq<char>, i: int)
    requires
        0 <= i <= a.len(),
        i <= b.len(),
        a.subrange(0, i) == b.subrange(0, i),
        a != b,
    ensures
        lex_less_from(a, b, i) || lex_less_from(b, a, i),
    decreases a.len() - i,
{
    if i < a.len() && i < b.len() && a[i] == b[i] {
        assert(a.subrange(0, i + 1) =~= a.subrange(0, i).push(a[i]));
        assert(b.subrange(0, i + 1) =~= b.subrange(0, i).push(b[i]));
        lemma_lex_total(a, b, i + 1);
    } else if i == a.len() && i == b.len() {
        assert(a =~= a.subrange(0, i));
        assert(b =~= b.subrange(0, i));
    }
}

/// How two strings compare alphabetically.
enum Alphabetical {
    Before,
    Same,
    After,
}

fn compare_chars(a: &Vec<char>, b: &Vec<char>) -> (r: Alphabetical)
    ensures
        r is Before <==> lex_less(a@, b@),
        r is Same <==> a@ == b@,
        r is After <==> lex_less(b@, a@),
{
    let mut i: usize = 0;
    while i < a.len() && i < b.len()
        invariant
            i <= a.len(),
            i <= b.len(),
            a@.subrange(0, i as int) == b@.subrange(0, i as int),
            lex_less(a@, b@) == lex_less_from(a@, b@, i as int),
            lex_less(b@, a@) == lex_less_from(b@, a@, i as int),
        decreases a.len() - i,
    {
        if a[i] != b[i] {
            proof {
                if a@ == b@ {
                    assert(a@[i as int] == b@[i as int]);
                }
            }
            if a[i] < b[i] {
                return Alphabetical::Before;
            } else {
                return Alphabetical::After;
            }
        }
        assert(a@.subrange(0, i + 1) =~= a@.subrange(0, i as int).push(a@[i as int]));
        assert(b@.subrange(0, i + 1) =~= b@.subrange(0, i as int).push(b@[i as int]));
        i += 1;
    }
    if a.len() == b.len() {
        assert(a@ =~= a@.subrange(0, i as int));
        assert(b@ =~= b@.subrange(0, i as int));
        proof {
            lemma_lex_irreflexive(a@, 0);
        }
        Alphabetical::Same
    } else if a.len() < b.len() {
        Alphabetical::Before
    } else {
        Alphabetical::After
    }
}


/// The index of the last `.` among the first `n` characters of `f`.
pub open spec fn last_dot(f: Seq<char>, n: int) -> Option<int>
    decreases n,
{
    if n <= 0 {
        None
    } else if f[n - 1] == '.' {
        Some(n - 1)
    } else {
        last_dot(f, n - 1)
    }
}

/// A file name's stem and extension, as paths split them: at the last `.`, unless the name is
/// `..` or its only `.` comes first (then it has no extension).
pub open spec fn split_file_name(f: Seq<char>) -> (Seq<char>, Option<Seq<char>>) {
    if f == seq!['.', '.'] {
        (f, None)
    } else {
        match last_dot(f, f.len() as int) {
            Some(d) => if d == 0 {
                (f, None)
            } else {
                (f.subrange(0, d), Some(f.subrange(d + 1, f.len() as int)))
            },
            None => (f, None),
        }
    }
}

fn find_last_dot(f: &Vec<char>) -> (r: Option<usize>)
    ensures
        r matches Some(d) ==> d < f.len() && last_dot(f@, f.len() as int) == Some(d as int),
        r is None ==> last_dot(f@, f.len() as int) is None,
{
    let mut n: usize = f.len();
    while n > 0
        invariant
            n <= f.len(),
            last_dot(f@, f.len() as int) == last_dot(f@, n as int),
        decreases n,
    {
        if f[n - 1] == '.' {
            return Some(n - 1);
        }
        n -= 1;
    }
    None
}

fn subrange_chars(f: &Vec<char>, lo: usize, hi: usize) -> (r: Vec<char>)
    requires
        lo <= hi <= f.len(),
    ensures
        r@ == f@.subrange(lo as int, hi as int),
{
    let mut r: Vec<char> = Vec::new();
    let mut i = lo;
    while i < hi
        invariant
            lo <= i <= hi,
            hi <= f.len(),
            r@ == f@.subrange(lo as int, i as int),
        decreases hi - i,
    {
        r.push(f[i]);
        i += 1;
        assert(r@ =~= f@.subrange(lo as int, i as int));
    }
    r
}

/// Splits a file name into stem and extension (see [`split_file_name`]).
pub fn file_stem_and_extension(f: &Vec<char>) -> (r: (Vec<char>, Option<Vec<char>>))
    ensures
        r.0@ == split_file_name(f@).0,
        match (r.1, split_file_name(f@).1) {
            (Some(e), Some(s)) => e@ == s,
            (None, None) => true,
            _ => false,
        },
{
    assert(f@.subrange(0, f.len() as int) =~= f@);
    if f.len() == 2 && f[0] == '.' && f[1] == '.' {
        assert(f@ =~= seq!['.', '.']);
        return (subrange_chars(f, 0, f.len()), None);
    }
    assert(f@ != seq!['.', '.']) by {
        if f@ == seq!['.', '.'] {
            assert(f@[0] == '.' && f@[1] == '.');
        }
    }
    match find_last_dot(f) {
        Some(d) => {
            assert(last_dot(f@, f.len() as int) == Some(d as int));
            if d == 0 {
                (subrange_chars(f, 0, f.len()), None)
            } else {
                (subrange_chars(f, 0, d), Some(subrange_chars(f, d + 1, f.len())))
            }
        },
        None => {
            assert(last_dot(f@, f.len() as int) is None);
            (subrange_chars(f, 0, f.len()), None)
        },
    }
}


/// Whether the strings are in strictly increasing alphabetical order.
pub open spec fn strictly_sorted(v: Seq<Seq<char>>) -> bool {
    forall|i: int, j: int| 0 <= i < j < v.len() ==> lex_less(v[i], v[j])
}

/// The strings held by a vector of character vectors.
pub open spec fn char_views(v: Seq<Vec<char>>) -> Seq<Seq<char>> {
    v.map_values(|c: Vec<char>| c@)
}

/// Adds `x` to a strictly sorted list of strings, unless it is already there.
fn sorted_insert(v: &mut Vec<Vec<char>>, x: &Vec<char>)
    requires
        strictly_sorted(char_views(old(v)@)),
    ensures
        strictly_sorted(char_views(final(v)@)),
        forall|y: Seq<char>|
            char_views(final(v)@).contains(y) <==> (char_views(old(v)@).contains(y) || y == x@),
{
    let ghost before = char_views(v@);
    let mut j: usize = 0;
    let mut found = false;
    let mut stop = false;
    while !stop && j < v.len()
        invariant
            j <= v.len(),
            v@ == old(v)@,
            before == char_views(v@),
            strictly_sorted(before),
            forall|i: int| 0 <= i < j ==> lex_less(before[i], x@),
            stop ==> j < v.len(),
            stop && found ==> before[j as int] == x@,
            stop && !found ==> lex_less(x@, before[j as int]),
            !stop ==> !found,
        decreases v.len() - j + if stop { 0int } else { 1int },
    {
        match compare_chars(&v[j], x) {
            Alphabetical::Before => {
                j += 1;
            },
            Alphabetical::Same => {
                found = true;
                stop = true;
            },
            Alphabetical::After => {
                stop = true;
            },
        }
    }
    if found {
        return;
    }
    // Every string from `j` on comes after `x`.
    assert forall|i: int| j <= i < before.len() implies lex_less(x@, before[i]) by {
        if i > j {
            assert(lex_less(before[j as int], before[i]));
            lemma_lex_transitive(x@, before[j as int], before[i], 0);
        }
    }
    let copy = subrange_chars(x, 0, x.len());
    assert(x@.subrange(0, x.len() as int) =~= x@);
    v.insert(j, copy);
    let ghost after = char_views(v@);
    assert(after =~= before.insert(j as int, x@));
    assert forall|a: int, b: int| 0 <= a < b < after.len() implies lex_less(after[a], after[b]) by {
        if a < j && b == j {
        } else if a < j && b > j {
            assert(after[b] == before[b - 1]);
            lemma_lex_transitive(before[a], x@, before[b - 1], 0);
        } else if a == j {
            assert(after[b] == before[b - 1]);
        } else if a > j {
            assert(after[a] == before[a - 1] && after[b] == before[b - 1]);
        } else {
            assert(after[a] == before[a] && after[b] == before[b]);
        }
    }
    assert forall|y: Seq<char>| after.contains(y) <==> (before.contains(y) || y == x@) by {
        if after.contains(y) {
            let i = choose|i: int| 0 <= i < after.len() && after[i] == y;
            if i < j {
                assert(before[i] == y);
            } else if i > j {
                assert(before[i - 1] == y);
            }
        }
        if before.contains(y) {
            let i = choose|i: int| 0 <= i < before.len() && before[i] == y;
            if i < j {
                assert(after[i] == y);
            } else {
                assert(after[i + 1] == y);
            }
        }
        if y == x@ {
            assert(after[j as int] == y);
        }
    }
}


/// The folder of a pack that holds its models.
pub open spec fn models_dir() -> Seq<char> {
    seq!['M', 'o', 'd', 'e', 'l', 's']
}

/// The folder of a pack that holds its preview images.
pub open spec fn previews_dir() -> Seq<char> {
    seq!['P', 'r', 'e', 'v', 'i', 'e', 'w', 's']
}

/// Whether a file extension is that of an asset: `png`, `glb` or `gltf`.
pub open spec fn asset_extension(e: Seq<char>) -> bool {
    e == seq!['p', 'n', 'g'] || e == seq!['g', 'l', 'b'] || e == seq!['g', 'l', 't', 'f']
}

/// The components of a path, as strings.
pub open spec fn path_components(p: Vec<String>) -> Seq<Seq<char>> {
    p@.map_values(|s: String| s@)
}

/// The paths, as component strings.
pub open spec fn asset_paths(paths: Seq<Vec<String>>) -> Seq<Seq<Seq<char>>> {
    paths.map_values(|p: Vec<String>| path_components(p))
}

/// Whether a path names an asset: `{pack}/Models/{file}` or `{pack}/Previews/{file}` where
/// the file has an asset extension.
pub open spec fn is_asset_path(c: Seq<Seq<char>>) -> bool {
    &&& c.len() == 3
    &&& (c[1] == models_dir() || c[1] == previews_dir())
    &&& split_file_name(c[2]).1 matches Some(e) && asset_extension(e)
}

/// The name of the spawnable an asset path belongs to: its file's stem.
pub open spec fn asset_name(c: Seq<Seq<char>>) -> Seq<char> {
    split_file_name(c[2]).0
}

/// Whether some asset path belongs to pack `pack`.
pub open spec fn pack_listed(ps: Seq<Seq<Seq<char>>>, pack: Seq<char>) -> bool {
    exists|i: int| 0 <= i < ps.len() && is_asset_path(#[trigger] ps[i]) && ps[i][0] == pack
}

/// Whether some asset path belongs to the spawnable `name` of pack `pack`.
pub open spec fn asset_listed(ps: Seq<Seq<Seq<char>>>, pack: Seq<char>, name: Seq<char>) -> bool {
    exists|i: int|
        0 <= i < ps.len() && is_asset_path(#[trigger] ps[i]) && ps[i][0] == pack && asset_name(ps[i])
            == name
}

/// The last model (or preview) path of the spawnable `name` of pack `pack`: later paths
/// replace earlier ones.
pub open spec fn last_asset(ps: Seq<Seq<Seq<char>>>, pack: Seq<char>, name: Seq<char>, model: bool) -> Option<int>
    decreases ps.len(),
{
    if ps.len() == 0 {
        None
    } else {
        let k = ps.len() - 1;
        let c = ps[k];
        if is_asset_path(c) && c[0] == pack && asset_name(c) == name && (c[1] == models_dir())
            == model {
            Some(k)
        } else {
            last_asset(ps.drop_last(), pack, name, model)
        }
    }
}

/// A spawnable object of a pack: its name and the paths (as indices into the list that was
/// categorized) of its model and preview, when it has them.
pub struct SpawnableAsset {
    pub name: String,
    pub model: Option<usize>,
    pub preview: Option<usize>,
}

/// A pack of spawnable objects, in alphabetical order.
pub struct AssetPack {
    pub name: String,
    pub spawnables: Vec<SpawnableAsset>,
}

/// Whether an index found in the list stands for the path found by the specification.
pub open spec fn same_index(found: Option<usize>, spec: Option<int>) -> bool {
    match (found, spec) {
        (Some(a), Some(b)) => a as int == b,
        (None, None) => true,
        _ => false,
    }
}

/// An asset path, taken apart: the pack, the spawnable's name and whether it is a model.
type Classified = Option<(Vec<char>, Vec<char>, bool)>;

/// Whether `e` is what classifying the path `c` gives.
spec fn classified_as(e: Classified, c: Seq<Seq<char>>) -> bool {
    match e {
        Some((pack, name, model)) => is_asset_path(c) && pack@ == c[0] && name@ == asset_name(c)
            && model == (c[1] == models_dir()),
        None => !is_asset_path(c),
    }
}

fn chars_equal(a: &Vec<char>, b: &Vec<char>) -> (r: bool)
    ensures
        r == (a@ == b@),
{
    match compare_chars(a, b) {
        Alphabetical::Same => true,
        _ => false,
    }
}

fn classify(path: &Vec<String>) -> (r: Classified)
    ensures
        classified_as(r, path_components(*path)),
{
    let ghost c = path_components(*path);
    if path.len() != 3 {
        return None;
    }
    let category = chars_of(path[1].as_str());
    let models = chars_of("Models");
    let previews = chars_of("Previews");
    proof {
        reveal_strlit("Models");
        reveal_strlit("Previews");
        assert(models@ =~= models_dir());
        assert(previews@ =~= previews_dir());
    }
    let is_model = chars_equal(&category, &models);
    if !is_model && !chars_equal(&category, &previews) {
        return None;
    }
    let file = chars_of(path[2].as_str());
    let (stem, extension) = file_stem_and_extension(&file);
    let ok = match &extension {
        Some(e) => {
            let png = chars_of("png");
            let glb = chars_of("glb");
            let gltf = chars_of("gltf");
            proof {
                reveal_strlit("png");
                reveal_strlit("glb");
                reveal_strlit("gltf");
                assert(png@ =~= seq!['p', 'n', 'g']);
                assert(glb@ =~= seq!['g', 'l', 'b']);
                assert(gltf@ =~= seq!['g', 'l', 't', 'f']);
            }
            chars_equal(e, &png) || chars_equal(e, &glb) || chars_equal(e, &gltf)
        },
        None => false,
    };
    if !ok {
        return None;
    }
    let pack = chars_of(path[0].as_str());
    Some((pack, stem, is_model))
}

/// The last entry classified as the spawnable `name` of pack `pack`, of the given kind.
fn find_last_asset(entries: &Vec<Classified>, pack: &Vec<char>, name: &Vec<char>, model: bool, Ghost(ps): Ghost<Seq<Seq<Seq<char>>>>) -> (r: Option<usize>)
    requires
        entries.len() == ps.len(),
        forall|i: int| 0 <= i < ps.len() ==> classified_as(#[trigger] entries@[i], ps[i]),
    ensures
        same_index(r, last_asset(ps, pack@, name@, model)),
{
    let mut n: usize = entries.len();
    assert(ps.subrange(0, n as int) =~= ps);
    while n > 0
        invariant
            n <= entries.len(),
            entries.len() == ps.len(),
            forall|i: int| 0 <= i < ps.len() ==> classified_as(#[trigger] entries@[i], ps[i]),
            last_asset(ps, pack@, name@, model) == last_asset(ps.subrange(0, n as int), pack@, name@, model),
        decreases n,
    {
        let ghost prefix = ps.subrange(0, n as int);
        assert(prefix.drop_last() =~= ps.subrange(0, n - 1));
        assert(prefix[n - 1] == ps[n - 1]);
        assert(classified_as(entries@[n - 1], ps[n - 1]));
        match &entries[n - 1] {
            Some((p, nm, m)) => {
                if *m == model && chars_equal(p, pack) && chars_equal(nm, name) {
                    return Some(n - 1);
                }
            },
            None => {},
        }
        n -= 1;
    }
    None
}

fn string_of(chars: &Vec<char>) -> (s: String)
    ensures
        s@ == chars@,
{
    let mut s = String::new();
    push_chars(&mut s, chars);
    assert(s@ =~= chars@);
    s
}


/// The names of the packs, in order.
pub open spec fn pack_names(packs: Seq<AssetPack>) -> Seq<Seq<char>> {
    packs.map_values(|p: AssetPack| p.name@)
}

/// The names of the spawnables, in order.
pub open spec fn spawnable_names(spawnables: Seq<SpawnableAsset>) -> Seq<Seq<char>> {
    spawnables.map_values(|s: SpawnableAsset| s.name@)
}

/// Whether a pack lists exactly the spawnables that the asset paths `ps` give it, in
/// alphabetical order, each with its last model and last preview.
pub open spec fn pack_catalogued(ps: Seq<Seq<Seq<char>>>, pack: AssetPack) -> bool {
    &&& strictly_sorted(spawnable_names(pack.spawnables@))
    &&& forall|n: Seq<char>|
        spawnable_names(pack.spawnables@).contains(n) <==> asset_listed(ps, pack.name@, n)
    &&& forall|j: int|
        0 <= j < pack.spawnables.len() ==> {
            let s = #[trigger] pack.spawnables@[j];
            &&& same_index(s.model, last_asset(ps, pack.name@, s.name@, true))
            &&& same_index(s.preview, last_asset(ps, pack.name@, s.name@, false))
        }
}

proof fn lemma_pack_listed_step(ps: Seq<Seq<Seq<char>>>, k: int, y: Seq<char>)
    requires
        0 <= k < ps.len(),
    ensures
        pack_listed(ps.subrange(0, k + 1), y) <==> (pack_listed(ps.subrange(0, k), y) || (
        is_asset_path(ps[k]) && ps[k][0] == y)),
{
    let a = ps.subrange(0, k);
    let b = ps.subrange(0, k + 1);
    if pack_listed(b, y) {
        let i = choose|i: int| 0 <= i < b.len() && is_asset_path(#[trigger] b[i]) && b[i][0] == y;
        if i < k {
            assert(a[i] == b[i]);
        }
    }
    if pack_listed(a, y) {
        let i = choose|i: int| 0 <= i < a.len() && is_asset_path(#[trigger] a[i]) && a[i][0] == y;
        assert(b[i] == a[i]);
    }
    if is_asset_path(ps[k]) && ps[k][0] == y {
        assert(b[k] == ps[k]);
    }
}

proof fn lemma_asset_listed_step(ps: Seq<Seq<Seq<char>>>, k: int, pack: Seq<char>, y: Seq<char>)
    requires
        0 <= k < ps.len(),
    ensures
        asset_listed(ps.subrange(0, k + 1), pack, y) <==> (asset_listed(ps.subrange(0, k), pack, y)
            || (is_asset_path(ps[k]) && ps[k][0] == pack && asset_name(ps[k]) == y)),
{
    let a = ps.subrange(0, k);
    let b = ps.subrange(0, k + 1);
    if asset_listed(b, pack, y) {
        let i = choose|i: int|
            0 <= i < b.len() && is_asset_path(#[trigger] b[i]) && b[i][0] == pack && asset_name(b[i]) == y;
        if i < k {
            assert(a[i] == b[i]);
        }
    }
    if asset_listed(a, pack, y) {
        let i = choose|i: int|
            0 <= i < a.len() && is_asset_path(#[trigger] a[i]) && a[i][0] == pack && asset_name(a[i]) == y;
        assert(b[i] == a[i]);
    }
    if is_asset_path(ps[k]) && ps[k][0] == pack && asset_name(ps[k]) == y {
        assert(b[k] == ps[k]);
    }
}

/// The spawnables of pack `pack`, in alphabetical order.
fn catalogue_pack(entries: &Vec<Classified>, pack: &Vec<char>, Ghost(ps): Ghost<Seq<Seq<Seq<char>>>>) -> (r: AssetPack)
    requires
        entries.len() == ps.len(),
        forall|i: int| 0 <= i < ps.len() ==> classified_as(#[trigger] entries@[i], ps[i]),
    ensures
        r.name@ == pack@,
        pack_catalogued(ps, r),
{
    let mut names: Vec<Vec<char>> = Vec::new();
    let mut k: usize = 0;
    while k < entries.len()
        invariant
            k <= entries.len(),
            entries.len() == ps.len(),
            forall|i: int| 0 <= i < ps.len() ==> classified_as(#[trigger] entries@[i], ps[i]),
            strictly_sorted(char_views(names@)),
            forall|y: Seq<char>|
                char_views(names@).contains(y) <==> asset_listed(ps.subrange(0, k as int), pack@, y),
        decreases entries.len() - k,
    {
        assert(classified_as(entries@[k as int], ps[k as int]));
        let ghost before = char_views(names@);
        match &entries[k] {
            Some((p, n, _)) => {
                if chars_equal(p, pack) {
                    sorted_insert(&mut names, n);
                }
            },
            None => {},
        }
        proof {
            assert forall|y: Seq<char>|
                char_views(names@).contains(y) <==> asset_listed(ps.subrange(0, k + 1), pack@, y) by {
                lemma_asset_listed_step(ps, k as int, pack@, y);
            }
        }
        k += 1;
    }
    assert(ps.subrange(0, k as int) =~= ps);
    let mut spawnables: Vec<SpawnableAsset> = Vec::new();
    let mut b: usize = 0;
    while b < names.len()
        invariant
            b <= names.len(),
            entries.len() == ps.len(),
            forall|i: int| 0 <= i < ps.len() ==> classified_as(#[trigger] entries@[i], ps[i]),
            spawnables.len() == b,
            spawnable_names(spawnables@) == char_views(names@).subrange(0, b as int),
            forall|j: int|
                0 <= j < b ==> {
                    let s = #[trigger] spawnables@[j];
                    &&& same_index(s.model, last_asset(ps, pack@, s.name@, true))
                    &&& same_index(s.preview, last_asset(ps, pack@, s.name@, false))
                },
        decreases names.len() - b,
    {
        let name = &names[b];
        let model = find_last_asset(entries, pack, name, true, Ghost(ps));
        let preview = find_last_asset(entries, pack, name, false, Ghost(ps));
        let s = SpawnableAsset { name: string_of(name), model, preview };
        spawnables.push(s);
        b += 1;
        assert(spawnable_names(spawnables@) =~= char_views(names@).subrange(0, b as int));
    }
    assert(char_views(names@).subrange(0, b as int) =~= char_views(names@));
    AssetPack { name: string_of(pack), spawnables }
}

/// Sorts asset paths (each given as its components) into packs of spawnable objects: a path
/// `{pack}/Models/{file}` or `{pack}/Previews/{file}` whose file ends in `.png`, `.glb` or
/// `.gltf` belongs to the spawnable named by the file's stem in that pack; all other paths are
/// left out. Packs and their spawnables come in alphabetical order; a spawnable's model and
/// preview are its last such paths.
pub fn categorize_assets(paths: &Vec<Vec<String>>) -> (packs: Vec<AssetPack>)
    ensures
        strictly_sorted(pack_names(packs@)),
        forall|p: Seq<char>| pack_names(packs@).contains(p) <==> pack_listed(asset_paths(paths@), p),
        forall|i: int| 0 <= i < packs.len() ==> pack_catalogued(asset_paths(paths@), #[trigger] packs@[i]),
{
    let ghost ps = asset_paths(paths@);
    let mut entries: Vec<Classified> = Vec::new();
    let mut k: usize = 0;
    while k < paths.len()
        invariant
            k <= paths.len(),
            ps == asset_paths(paths@),
            entries.len() == k,
            forall|i: int| 0 <= i < k ==> classified_as(#[trigger] entries@[i], ps[i]),
        decreases paths.len() - k,
    {
        entries.push(classify(&paths[k]));
        k += 1;
    }
    let mut names: Vec<Vec<char>> = Vec::new();
    let mut k: usize = 0;
    while k < entries.len()
        invariant
            k <= entries.len(),
            entries.len() == ps.len(),
            forall|i: int| 0 <= i < ps.len() ==> classified_as(#[trigger] entries@[i], ps[i]),
            strictly_sorted(char_views(names@)),
            forall|y: Seq<char>|
                char_views(names@).contains(y) <==> pack_listed(ps.subrange(0, k as int), y),
        decreases entries.len() - k,
    {
        assert(classified_as(entries@[k as int], ps[k as int]));
        match &entries[k] {
            Some((p, _, _)) => {
                sorted_insert(&mut names, p);
            },
            None => {},
        }
        proof {
            assert forall|y: Seq<char>|
                char_views(names@).contains(y) <==> pack_listed(ps.subrange(0, k + 1), y) by {
                lemma_pack_listed_step(ps, k as int, y);
            }
        }
        k += 1;
    }
    assert(ps.subrange(0, k as int) =~= ps);
    let mut packs: Vec<AssetPack> = Vec::new();
    let mut a: usize = 0;
    while a < names.len()
        invariant
            a <= names.len(),
            entries.len() == ps.len(),
            forall|i: int| 0 <= i < ps.len() ==> classified_as(#[trigger] entries@[i], ps[i]),
            packs.len() == a,
            pack_names(packs@) == char_views(names@).subrange(0, a as int),
            forall|i: int| 0 <= i < a ==> pack_catalogued(ps, #[trigger] packs@[i]),
        decreases names.len() - a,
    {
        let pack = catalogue_pack(&entries, &names[a], Ghost(ps));
        packs.push(pack);
        a += 1;
        assert(pack_names(packs@) =~= char_views(names@).subrange(0, a as int));
    }
    assert(char_views(names@).subrange(0, a as int) =~= char_views(names@));
    packs
}

} // verus!
