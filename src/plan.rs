//! The renames of one directory pair: a staging pass to temporary names, then a commit
//! pass to the final numeric names.
use vstd::prelude::*;
use rand::rngs::StdRng;
use crate::allocate::{allocate, is_range_permutation};
use crate::names::{
    decimal, decimal_string, ext_of, has_dot, join_name, joined, lemma_decimal_injective,
    lemma_decimal_no_dot, lemma_ext_of_joined, lemma_temp_base_injective, lemma_temp_base_no_dot,
    parse_name, temp_base, temp_name,
};
use crate::multiset_facts::{
    lemma_filter_no_duplicates, lemma_filter_partition_multiset, lemma_map_keeps_multiset,
    lemma_same_set_same_multiset,
};
use crate::pairing::{exclusive, get_paired_files, get_unpaired_files, names_of, shared};

verus! {

/// One rename inside a directory: file name `from` becomes `to`.
#[derive(Debug)]
pub struct Rename {
    pub from: String,
    pub to: String,
}

/// The renames of one directory, in batch order: `stage[i]` moves file `i` to its
/// temporary name, `commit[i]` moves it on to its final name.
#[derive(Debug)]
pub struct DirPlan {
    pub stage: Vec<Rename>,
    pub commit: Vec<Rename>,
}

/// Every name of the listing has an extension separator.
pub open spec fn all_named(files: Seq<Seq<char>>) -> bool {
    forall|i: int| 0 <= i < files.len() ==> has_dot(#[trigger] files[i])
}

/// Temporary name of file `i` of a batch whose original name is `name`.
pub open spec fn staged_name(i: int, name: Seq<char>) -> Seq<char> {
    joined(temp_base(i as nat), ext_of(name))
}

/// Final name given to a file with identity `id` and original name `name`.
pub open spec fn final_name(id: u32, name: Seq<char>) -> Seq<char> {
    joined(decimal(id as nat), ext_of(name))
}

/// `stage` and `commit` rename `files[i]` to the temporary name of position `first + i`,
/// then to the final name of `ids[i]`.
pub open spec fn plans_renames(
    files: Seq<Seq<char>>,
    ids: Seq<u32>,
    first: int,
    stage: Seq<Rename>,
    commit: Seq<Rename>,
) -> bool {
    &&& stage.len() == files.len()
    &&& commit.len() == files.len()
    &&& forall|i: int|
        #![trigger stage[i]]
        0 <= i < files.len() ==> {
            &&& stage[i].from@ == files[i]
            &&& stage[i].to@ == staged_name(first + i, files[i])
        }
    &&& forall|i: int|
        #![trigger commit[i]]
        0 <= i < files.len() ==> {
            &&& commit[i].from@ == staged_name(first + i, files[i])
            &&& commit[i].to@ == final_name(ids[i], files[i])
        }
}

/// `p` renames `files[i]` to the temporary name of position `first + i`, then to the
/// final name of `ids[i]`.
pub open spec fn plans_batch(files: Seq<Seq<char>>, ids: Seq<u32>, first: int, p: DirPlan) -> bool {
    plans_renames(files, ids, first, p.stage@, p.commit@)
}

/// A batch planned from position 0 followed by one planned from where it ends is a plan
/// of the two listings together.
proof fn lemma_plans_concat(
    f1: Seq<Seq<char>>,
    i1: Seq<u32>,
    s1: Seq<Rename>,
    c1: Seq<Rename>,
    f2: Seq<Seq<char>>,
    i2: Seq<u32>,
    s2: Seq<Rename>,
    c2: Seq<Rename>,
)
    requires
        i1.len() == f1.len(),
        i2.len() == f2.len(),
        plans_renames(f1, i1, 0, s1, c1),
        plans_renames(f2, i2, f1.len() as int, s2, c2),
    ensures
        plans_renames(f1 + f2, i1 + i2, 0, s1 + s2, c1 + c2),
{
    let f = f1 + f2;
    let ids = i1 + i2;
    let s = s1 + s2;
    let c = c1 + c2;
    assert forall|i: int| 0 <= i < f.len() implies s[i].from@ == f[i] && s[i].to@
        == staged_name(0 + i, f[i]) by {
        if i >= f1.len() {
            let k = i - f1.len();
            assert(s2[k].to@ == staged_name(f1.len() + k, f2[k]));
        }
    }
    assert forall|i: int| 0 <= i < f.len() implies c[i].from@ == staged_name(0 + i, f[i])
        && c[i].to@ == final_name(ids[i], f[i]) by {
        if i >= f1.len() {
            let k = i - f1.len();
            assert(c2[k].from@ == staged_name(f1.len() + k, f2[k]));
            assert(c2[k].to@ == final_name(i2[k], f2[k]));
        }
    }
}

/// The renames for `files` with identities `ids`, or the index of the first name that
/// has no extension separator.
pub fn plan_batch(files: &Vec<String>, ids: &Vec<u32>, first: u64) -> (r: Result<DirPlan, usize>)
    requires
        files@.len() == ids@.len(),
        first + files@.len() <= u64::MAX,
    ensures
        r is Ok <==> all_named(names_of(files@)),
        r matches Ok(p) ==> plans_batch(names_of(files@), ids@, first as int, p),
        r matches Err(i) ==> i < files@.len() && !has_dot(files@[i as int]@) && all_named(
            names_of(files@).take(i as int),
        ),
{
    let ghost fs = names_of(files@);
    let mut stage: Vec<Rename> = Vec::new();
    let mut commit: Vec<Rename> = Vec::new();
    let mut i: usize = 0;
    while i < files.len()
        invariant
            fs == names_of(files@),
            files@.len() == ids@.len(),
            first + files@.len() <= u64::MAX,
            i <= files@.len(),
            all_named(fs.take(i as int)),
            plans_renames(fs.take(i as int), ids@, first as int, stage@, commit@),
        decreases files@.len() - i,
    {
        let parsed = parse_name(files[i].as_str());
        match parsed {
            None => {
                assert(fs[i as int] == files@[i as int]@);
                assert(!has_dot(fs[i as int]));
                return Err(i);
            },
            Some((_base, ext)) => {
                let tmp = join_name(temp_name(first + i as u64).as_str(), ext.as_str());
                let tmp2 = tmp.clone();
                let fin = join_name(decimal_string(ids[i] as u64).as_str(), ext.as_str());
                stage.push(Rename { from: files[i].clone(), to: tmp });
                commit.push(Rename { from: tmp2, to: fin });
                proof {
                    assert(fs[i as int] == files@[i as int]@);
                    assert forall|j: int| 0 <= j < i + 1 implies has_dot(
                        #[trigger] fs.take(i + 1)[j],
                    ) by {
                        if j < i {
                            assert(fs.take(i + 1)[j] == fs.take(i as int)[j]);
                        }
                    }
                    assert forall|j: int| 0 <= j < i + 1 implies #[trigger] fs.take(i + 1)[j]
                        == fs[j] by {}
                    assert forall|j: int| 0 <= j < i implies #[trigger] fs.take(i as int)[j]
                        == fs[j] by {}
                }
            },
        }
        i = i + 1;
    }
    assert(fs.take(i as int) =~= fs);
    Ok(DirPlan { stage, commit })
}

/// The renames of a directory pair and the identities behind them. The paired files come
/// first on both sides, in the order of side A, then the files of each side alone.
#[derive(Debug)]
pub struct PairPlan {
    pub paired_ids: Vec<u32>,
    pub ids_a: Vec<u32>,
    pub ids_b: Vec<u32>,
    pub side_a: DirPlan,
    pub side_b: DirPlan,
}

/// Why a directory pair cannot be planned.
#[derive(Debug)]
pub enum PlanError {
    /// A file name without an extension separator.
    MalformedName(String),
}

/// The batch of side A: the paired names, then the names only A holds.
pub open spec fn batch_a(a: Seq<Seq<char>>, b: Seq<Seq<char>>) -> Seq<Seq<char>> {
    shared(a, b) + exclusive(a, b)
}

/// The batch of side B: the paired names (in the order of A), then the names only B holds.
pub open spec fn batch_b(a: Seq<Seq<char>>, b: Seq<Seq<char>>) -> Seq<Seq<char>> {
    shared(a, b) + exclusive(b, a)
}

/// `p` is a plan of the pair with listings `a` and `b`: paired files take identities
/// `1..=P`, the files of each side alone take `P+1..`, each run shuffled.
pub open spec fn plans_pair(a: Seq<Seq<char>>, b: Seq<Seq<char>>, p: PairPlan) -> bool {
    let np = shared(a, b).len() as int;
    &&& is_range_permutation(p.paired_ids@, 1, np)
    &&& is_range_permutation(p.ids_a@, np + 1, exclusive(a, b).len() as int)
    &&& is_range_permutation(p.ids_b@, np + 1, exclusive(b, a).len() as int)
    &&& plans_batch(batch_a(a, b), p.paired_ids@ + p.ids_a@, 0, p.side_a)
    &&& plans_batch(batch_b(a, b), p.paired_ids@ + p.ids_b@, 0, p.side_b)
}

/// The original names of a batch.
pub open spec fn sources(r: Seq<Rename>) -> Seq<Seq<char>> {
    r.map_values(|x: Rename| x.from@)
}

/// The names a batch leaves behind.
pub open spec fn targets(r: Seq<Rename>) -> Seq<Seq<char>> {
    r.map_values(|x: Rename| x.to@)
}

/// The extensions of a listing, in order.
pub open spec fn extensions(names: Seq<Seq<char>>) -> Seq<Seq<char>> {
    names.map_values(|n: Seq<char>| ext_of(n))
}

/// Renaming a batch keeps the number of files and the multiset of their extensions:
/// the files before the stage pass and after the commit pass carry the same extensions.
pub proof fn lemma_no_data_loss(files: Seq<Seq<char>>, ids: Seq<u32>, first: int, p: DirPlan)
    requires
        files.len() == ids.len(),
        plans_batch(files, ids, first, p),
    ensures
        targets(p.commit@).len() == sources(p.stage@).len(),
        extensions(targets(p.commit@)).to_multiset() == extensions(
            sources(p.stage@),
        ).to_multiset(),
{
    assert forall|i: int| 0 <= i < files.len() implies extensions(targets(p.commit@))[i]
        == extensions(sources(p.stage@))[i] by {
        lemma_decimal_no_dot(ids[i] as nat);
        lemma_ext_of_joined(decimal(ids[i] as nat), ext_of(files[i]));
    }
    assert(extensions(targets(p.commit@)) =~= extensions(sources(p.stage@)));
}

/// Processing a directory pair loses no file. Each side's batch renames exactly the files
/// of that side, so the side holds as many files afterwards as before; and the files it
/// holds after the commit pass carry the same multiset of extensions as before.
pub proof fn lemma_pair_no_data_loss(a: Seq<Seq<char>>, b: Seq<Seq<char>>, p: PairPlan)
    requires
        plans_pair(a, b, p),
        a.no_duplicates(),
        b.no_duplicates(),
    ensures
        sources(p.side_a.stage@).to_multiset() == a.to_multiset(),
        sources(p.side_b.stage@).to_multiset() == b.to_multiset(),
        targets(p.side_a.commit@).len() == a.len(),
        targets(p.side_b.commit@).len() == b.len(),
        extensions(targets(p.side_a.commit@)).to_multiset() == extensions(a).to_multiset(),
        extensions(targets(p.side_b.commit@)).to_multiset() == extensions(b).to_multiset(),
{
    broadcast use vstd::seq_lib::group_to_multiset_ensures;

    let pa = |n: Seq<char>| b.contains(n);
    let qa = |n: Seq<char>| !b.contains(n);
    let pb = |n: Seq<char>| a.contains(n);
    let qb = |n: Seq<char>| !a.contains(n);
    let ba = batch_a(a, b);
    let bb = batch_b(a, b);
    assert(sources(p.side_a.stage@) =~= ba);
    assert(sources(p.side_b.stage@) =~= bb);
    crate::pairing::lemma_pairing_complete(a, b);
    lemma_filter_partition_multiset(a, pa, qa);
    lemma_filter_partition_multiset(b, pb, qb);
    lemma_filter_no_duplicates(a, pa);
    lemma_filter_no_duplicates(b, pb);
    lemma_same_set_same_multiset(shared(a, b), shared(b, a));
    vstd::seq_lib::lemma_multiset_commutative(shared(a, b), exclusive(a, b));
    vstd::seq_lib::lemma_multiset_commutative(shared(a, b), exclusive(b, a));
    assert(ba.to_multiset() == a.to_multiset());
    assert(bb.to_multiset() == b.to_multiset());
    assert(ba.len() == ba.to_multiset().len() && a.len() == a.to_multiset().len());
    assert(bb.len() == bb.to_multiset().len() && b.len() == b.to_multiset().len());
    let f = |n: Seq<char>| ext_of(n);
    lemma_map_keeps_multiset(ba, a, f);
    lemma_map_keeps_multiset(bb, b, f);
    lemma_no_data_loss(ba, p.paired_ids@ + p.ids_a@, 0, p.side_a);
    lemma_no_data_loss(bb, p.paired_ids@ + p.ids_b@, 0, p.side_b);
    assert(extensions(ba) =~= ba.map_values(f));
    assert(extensions(bb) =~= bb.map_values(f));
    assert(extensions(a) =~= a.map_values(f));
    assert(extensions(b) =~= b.map_values(f));
}

/// A paired file gets the same final name on both sides: the paired identity with its
/// extension. Its original name is in both listings.
pub proof fn lemma_pairing_preserved(a: Seq<Seq<char>>, b: Seq<Seq<char>>, p: PairPlan, i: int)
    requires
        plans_pair(a, b, p),
        0 <= i < shared(a, b).len(),
    ensures
        p.side_a.stage@[i].from@ == p.side_b.stage@[i].from@,
        a.contains(p.side_a.stage@[i].from@),
        b.contains(p.side_a.stage@[i].from@),
        p.side_a.commit@[i].to@ == p.side_b.commit@[i].to@,
        p.side_a.commit@[i].to@ == final_name(p.paired_ids@[i], p.side_a.stage@[i].from@),
{
    broadcast use vstd::seq_lib::group_filter_ensures;

    crate::pairing::lemma_pairing_complete(a, b);
    assert(shared(a, b).to_set().contains(shared(a, b)[i]));
    assert(a.to_set().contains(shared(a, b)[i]));
    assert(b.to_set().contains(shared(a, b)[i]));
    assert(batch_a(a, b)[i] == shared(a, b)[i]);
    assert(batch_b(a, b)[i] == shared(a, b)[i]);
    assert((p.paired_ids@ + p.ids_a@)[i] == p.paired_ids@[i]);
    assert((p.paired_ids@ + p.ids_b@)[i] == p.paired_ids@[i]);
}

/// No two files of one directory receive the same identity: the paired run `1..=P` and
/// each side's own run `P+1..` never meet. So no two files of one directory are moved to
/// the same temporary name or the same final name.
pub proof fn lemma_disjoint_ranges(a: Seq<Seq<char>>, b: Seq<Seq<char>>, p: PairPlan)
    requires
        plans_pair(a, b, p),
    ensures
        (p.paired_ids@ + p.ids_a@).no_duplicates(),
        (p.paired_ids@ + p.ids_b@).no_duplicates(),
        targets(p.side_a.stage@).no_duplicates(),
        targets(p.side_a.commit@).no_duplicates(),
        targets(p.side_b.stage@).no_duplicates(),
        targets(p.side_b.commit@).no_duplicates(),
{
    let np = shared(a, b).len() as int;
    lemma_runs_disjoint(p.paired_ids@, p.ids_a@, np, exclusive(a, b).len() as int);
    lemma_runs_disjoint(p.paired_ids@, p.ids_b@, np, exclusive(b, a).len() as int);
    lemma_names_distinct(batch_a(a, b), p.paired_ids@ + p.ids_a@, 0, p.side_a);
    lemma_names_distinct(batch_b(a, b), p.paired_ids@ + p.ids_b@, 0, p.side_b);
}

/// Within a batch whose identities are distinct, no two files are moved to the same
/// temporary name, nor to the same final name.
pub proof fn lemma_names_distinct(files: Seq<Seq<char>>, ids: Seq<u32>, first: int, p: DirPlan)
    requires
        files.len() == ids.len(),
        ids.no_duplicates(),
        first >= 0,
        plans_batch(files, ids, first, p),
    ensures
        targets(p.stage@).no_duplicates(),
        targets(p.commit@).no_duplicates(),
{
    let st = targets(p.stage@);
    let ct = targets(p.commit@);
    assert forall|i: int, j: int| 0 <= i < st.len() && 0 <= j < st.len() && i != j implies st[i]
        != st[j] by {
        if st[i] == st[j] {
            lemma_temp_base_no_dot((first + i) as nat);
            lemma_temp_base_no_dot((first + j) as nat);
            lemma_ext_of_joined(temp_base((first + i) as nat), ext_of(files[i]));
            lemma_ext_of_joined(temp_base((first + j) as nat), ext_of(files[j]));
            lemma_temp_base_injective((first + i) as nat, (first + j) as nat);
        }
    }
    assert forall|i: int, j: int| 0 <= i < ct.len() && 0 <= j < ct.len() && i != j implies ct[i]
        != ct[j] by {
        if ct[i] == ct[j] {
            lemma_decimal_no_dot(ids[i] as nat);
            lemma_decimal_no_dot(ids[j] as nat);
            lemma_ext_of_joined(decimal(ids[i] as nat), ext_of(files[i]));
            lemma_ext_of_joined(decimal(ids[j] as nat), ext_of(files[j]));
            lemma_decimal_injective(ids[i] as nat, ids[j] as nat);
        }
    }
}

proof fn lemma_runs_disjoint(x: Seq<u32>, y: Seq<u32>, np: int, nu: int)
    requires
        is_range_permutation(x, 1, np),
        is_range_permutation(y, np + 1, nu),
    ensures
        (x + y).no_duplicates(),
{
    let s = x + y;
    assert forall|i: int, j: int| 0 <= i < s.len() && 0 <= j < s.len() && i != j implies s[i]
        != s[j] by {
        if i < x.len() && j >= x.len() {
            assert(x.contains(s[i]));
            assert(y.contains(s[j]));
        } else if j < x.len() && i >= x.len() {
            assert(x.contains(s[j]));
            assert(y.contains(s[i]));
        } else if i < x.len() {
            assert(s[i] == x[i] && s[j] == x[j]);
        } else {
            assert(s[i] == y[i - x.len()] && s[j] == y[j - x.len()]);
        }
    }
}

/// Two listings with the same names are well-formed together.
proof fn lemma_all_named_same_set(x: Seq<Seq<char>>, y: Seq<Seq<char>>)
    requires
        x.to_set() == y.to_set(),
    ensures
        all_named(x) <==> all_named(y),
{
    if all_named(x) {
        assert forall|i: int| 0 <= i < y.len() implies has_dot(#[trigger] y[i]) by {
            assert(y.to_set().contains(y[i]));
            assert(x.contains(y[i]));
        }
    }
    if all_named(y) {
        assert forall|i: int| 0 <= i < x.len() implies has_dot(#[trigger] x[i]) by {
            assert(x.to_set().contains(x[i]));
            assert(y.contains(x[i]));
        }
    }
}

/// Each side's batch holds exactly the names of that side.
proof fn lemma_batch_sets(a: Seq<Seq<char>>, b: Seq<Seq<char>>)
    ensures
        batch_a(a, b).to_set() == a.to_set(),
        batch_b(a, b).to_set() == b.to_set(),
{
    crate::pairing::lemma_pairing_complete(a, b);
    vstd::seq_lib::seq_to_set_distributes_over_add(shared(a, b), exclusive(a, b));
    vstd::seq_lib::seq_to_set_distributes_over_add(shared(a, b), exclusive(b, a));
}

/// A listing of names that are all well-formed, split in two.
proof fn lemma_all_named_concat(x: Seq<Seq<char>>, y: Seq<Seq<char>>)
    ensures
        all_named(x + y) <==> all_named(x) && all_named(y),
{
    if all_named(x + y) {
        assert forall|i: int| 0 <= i < x.len() implies has_dot(#[trigger] x[i]) by {
            assert((x + y)[i] == x[i]);
        }
        assert forall|i: int| 0 <= i < y.len() implies has_dot(#[trigger] y[i]) by {
            assert((x + y)[x.len() + i] == y[i]);
        }
    }
}

fn copy_renames(v: &Vec<Rename>) -> (r: Vec<Rename>)
    ensures
        r@.len() == v@.len(),
        forall|i: int| 0 <= i < v@.len() ==> #[trigger] r@[i].from@ == v@[i].from@ && r@[i].to@ == v@[i].to@,
{
    let mut r: Vec<Rename> = Vec::new();
    let mut i: usize = 0;
    while i < v.len()
        invariant
            i <= v@.len(),
            r@.len() == i,
            forall|j: int| 0 <= j < i ==> #[trigger] r@[j].from@ == v@[j].from@ && r@[j].to@ == v@[j].to@,
        decreases v@.len() - i,
    {
        let ghost before = r@;
        r.push(Rename { from: v[i].from.clone(), to: v[i].to.clone() });
        assert forall|j: int| 0 <= j < i + 1 implies #[trigger] r@[j].from@ == v@[j].from@
            && r@[j].to@ == v@[j].to@ by {
            if j < i {
                assert(r@[j] == before[j]);
            }
        }
        i = i + 1;
    }
    r
}

/// Shuffled identities `1..=P` for the `P` files present on both sides of a pair, and
/// their renames from batch position 0; the same renames serve both sides. Fails with
/// the index of the first name that has no extension separator.
pub fn refactor_paired_file(paired_files: Vec<String>, rng: &mut StdRng) -> (r: Result<
    (Vec<u32>, DirPlan),
    usize,
>)
    requires
        paired_files@.len() < u32::MAX,
    ensures
        r is Ok <==> all_named(names_of(paired_files@)),
        r matches Ok((ids, p)) ==> is_range_permutation(ids@, 1, paired_files@.len() as int)
            && plans_batch(names_of(paired_files@), ids@, 0, p),
        r matches Err(i) ==> i < paired_files@.len() && !has_dot(paired_files@[i as int]@)
            && all_named(names_of(paired_files@).take(i as int)),
{
    let ids = allocate(1, paired_files.len() as u32, rng);
    match plan_batch(&paired_files, &ids, 0) {
        Ok(p) => Ok((ids, p)),
        Err(i) => Err(i),
    }
}

/// Shuffled identities `len+1..=len+U` for the `U` files of one side alone, `len` being
/// the number of paired files, and their renames from batch position `len`, right after
/// the paired files. Fails with the index of the first name that has no extension
/// separator.
pub fn refactor_unpaired_files(unpaired_files: Vec<String>, len: usize, rng: &mut StdRng) -> (r:
    Result<(Vec<u32>, DirPlan), usize>)
    requires
        len + unpaired_files@.len() < u32::MAX,
    ensures
        r is Ok <==> all_named(names_of(unpaired_files@)),
        r matches Ok((ids, p)) ==> is_range_permutation(
            ids@,
            len + 1,
            unpaired_files@.len() as int,
        ) && plans_batch(names_of(unpaired_files@), ids@, len as int, p),
        r matches Err(i) ==> i < unpaired_files@.len() && !has_dot(unpaired_files@[i as int]@)
            && all_named(names_of(unpaired_files@).take(i as int)),
{
    let ids = allocate(len as u32 + 1, unpaired_files.len() as u32, rng);
    match plan_batch(&unpaired_files, &ids, len as u64) {
        Ok(p) => Ok((ids, p)),
        Err(i) => Err(i),
    }
}

/// Appends the renames of `q` to those of `p`.
fn extend_plan(p: &mut DirPlan, q: DirPlan)
    ensures
        final(p).stage@ == old(p).stage@ + q.stage@,
        final(p).commit@ == old(p).commit@ + q.commit@,
{
    let mut q = q;
    p.stage.append(&mut q.stage);
    p.commit.append(&mut q.commit);
}

/// Plans the renames of a directory pair from the two listings: classifies the names,
/// draws the identities and lays out both batches, paired files first. Fails on a name
/// that has no extension separator.
pub fn plan_pair(files_a: Vec<String>, files_b: Vec<String>, rng: &mut StdRng) -> (r: Result<
    PairPlan,
    PlanError,
>)
    requires
        files_a@.len() + files_b@.len() < u32::MAX,
    ensures
        r is Ok <==> all_named(names_of(files_a@)) && all_named(names_of(files_b@)),
        r matches Ok(p) ==> plans_pair(names_of(files_a@), names_of(files_b@), p),
        r matches Err(PlanError::MalformedName(n)) ==> !has_dot(n@) && (names_of(
            files_a@,
        ).contains(n@) || names_of(files_b@).contains(n@)),
{
    broadcast use vstd::seq_lib::group_filter_ensures;

    let ghost a = names_of(files_a@);
    let ghost b = names_of(files_b@);
    let paired = get_paired_files(files_a.clone(), files_b.clone());
    let only_a = get_unpaired_files(files_a.clone(), files_b.clone());
    let only_b = get_unpaired_files(files_b.clone(), files_a.clone());
    let ghost sp = names_of(paired@);
    let ghost sa = names_of(only_a@);
    let ghost sb = names_of(only_b@);
    proof {
        lemma_batch_sets(a, b);
        crate::pairing::lemma_pairing_complete(a, b);
        crate::pairing::lemma_partition_len(a, b);
        assert(sp.len() == paired@.len());
        assert(sa.len() == only_a@.len());
        assert(sb.len() == only_b@.len());
        assert(exclusive(b, a).len() <= b.len());
        lemma_all_named_same_set(batch_a(a, b), a);
        lemma_all_named_same_set(batch_b(a, b), b);
        lemma_all_named_concat(sp, sa);
        lemma_all_named_concat(sp, sb);
    }
    let np = paired.len();
    let (paired_ids, mut side_a) = match refactor_paired_file(paired.clone(), rng) {
        Ok(x) => x,
        Err(i) => {
            proof {
                assert(sp.to_set().contains(sp[i as int]));
            }
            return Err(PlanError::MalformedName(paired[i].clone()));
        },
    };
    let mut side_b = DirPlan { stage: copy_renames(&side_a.stage), commit: copy_renames(&side_a.commit) };
    assert(plans_batch(sp, paired_ids@, 0, side_b));
    let (ids_a, plan_a) = match refactor_unpaired_files(only_a.clone(), np, rng) {
        Ok(x) => x,
        Err(i) => {
            proof {
                assert(sa.to_set().contains(sa[i as int]));
                assert((sp.to_set() + sa.to_set()).contains(sa[i as int]));
                assert(a.to_set().contains(sa[i as int]));
                assert(sa[i as int] == only_a@[i as int]@);
            }
            return Err(PlanError::MalformedName(only_a[i].clone()));
        },
    };
    let (ids_b, plan_b) = match refactor_unpaired_files(only_b.clone(), np, rng) {
        Ok(x) => x,
        Err(i) => {
            proof {
                assert(sb.to_set().contains(sb[i as int]));
                assert((sp.to_set() + sb.to_set()).contains(sb[i as int]));
                assert(b.to_set().contains(sb[i as int]));
                assert(sb[i as int] == only_b@[i as int]@);
            }
            return Err(PlanError::MalformedName(only_b[i].clone()));
        },
    };
    proof {
        lemma_plans_concat(sp, paired_ids@, side_a.stage@, side_a.commit@, sa, ids_a@, plan_a.stage@, plan_a.commit@);
        lemma_plans_concat(sp, paired_ids@, side_b.stage@, side_b.commit@, sb, ids_b@, plan_b.stage@, plan_b.commit@);
    }
    extend_plan(&mut side_a, plan_a);
    extend_plan(&mut side_b, plan_b);
    Ok(PairPlan { paired_ids, ids_a, ids_b, side_a, side_b })
}

} // verus!
