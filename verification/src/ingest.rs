use vstd::prelude::*;
use crate::transcripts::{
    Transcript, BACKGROUND_CELL, count_assigned, lemma_assigned_below_ncells, ncells_of,
    postprocess_cell_assignments,
};

verus! {

/// Whether `name` occurs in the dictionary.
pub open spec fn contains_name(dict: Seq<Seq<u8>>, name: Seq<u8>) -> bool {
    exists|k: int| 0 <= k < dict.len() && dict[k] == name
}

/// The gene-name dictionary implied by a row sequence: each distinct name,
/// in first-seen order.
pub open spec fn dict_of(names: Seq<Seq<u8>>) -> Seq<Seq<u8>>
    decreases names.len(),
{
    if names.len() == 0 {
        Seq::empty()
    } else {
        let d = dict_of(names.drop_last());
        if contains_name(d, names.last()) {
            d
        } else {
            d.push(names.last())
        }
    }
}

/// The dictionary never holds a name twice.
pub proof fn lemma_dict_distinct(names: Seq<Seq<u8>>)
    ensures
        forall|k1: int, k2: int|
            0 <= k1 < k2 < dict_of(names).len() ==> dict_of(names)[k1] != dict_of(names)[k2],
    decreases names.len(),
{
    if names.len() > 0 {
        lemma_dict_distinct(names.drop_last());
        let d = dict_of(names.drop_last());
        if !contains_name(d, names.last()) {
            assert forall|k1: int, k2: int|
                0 <= k1 < k2 < dict_of(names).len() implies dict_of(names)[k1] != dict_of(
                names,
            )[k2] by {
                if k2 == d.len() {
                    assert(dict_of(names)[k2] == names.last());
                    assert(dict_of(names)[k1] == d[k1]);
                }
            }
        }
    }
}

proof fn lemma_dict_of_take_step(names: Seq<Seq<u8>>, i: int)
    requires
        0 <= i < names.len(),
    ensures
        dict_of(names.take(i + 1)) == (if contains_name(dict_of(names.take(i)), names[i]) {
            dict_of(names.take(i))
        } else {
            dict_of(names.take(i)).push(names[i])
        }),
{
    assert(names.take(i + 1).drop_last() =~= names.take(i));
    assert(names.take(i + 1).last() == names[i]);
}

/// The dictionary only grows as rows are read, and existing entries stay.
proof fn lemma_dict_of_take_prefix(names: Seq<Seq<u8>>, i: int)
    requires
        0 <= i < names.len(),
    ensures
        dict_of(names.take(i)).len() <= dict_of(names.take(i + 1)).len(),
        forall|k: int|
            0 <= k < dict_of(names.take(i)).len() ==> dict_of(names.take(i + 1))[k] == dict_of(
                names.take(i),
            )[k],
{
    lemma_dict_of_take_step(names, i);
}

/// Byte-for-byte equality of two names.
fn bytes_eq(a: &Vec<u8>, b: &Vec<u8>) -> (eq: bool)
    ensures
        eq <==> a@ == b@,
{
    if a.len() != b.len() {
        return false;
    }
    let n = a.len();
    let mut i: usize = 0;
    while i < n
        invariant
            n == a@.len(),
            n == b@.len(),
            0 <= i <= n,
            forall|k: int| 0 <= k < i ==> a@[k] == b@[k],
        decreases n - i,
    {
        if a[i] != b[i] {
            return false;
        }
        i = i + 1;
    }
    proof {
        assert(a@ =~= b@);
    }
    true
}

/// A fresh copy of a name.
fn copy_bytes(v: &Vec<u8>) -> (r: Vec<u8>)
    ensures
        r@ == v@,
{
    let n = v.len();
    let mut r: Vec<u8> = Vec::new();
    let mut i: usize = 0;
    while i < n
        invariant
            n == v@.len(),
            0 <= i <= n,
            r@ =~= v@.take(i as int),
        decreases n - i,
    {
        r.push(v[i]);
        proof {
            assert(r@ =~= v@.take(i + 1));
        }
        i = i + 1;
    }
    proof {
        assert(v@.take(n as int) =~= v@);
    }
    r
}

/// Position of a column among the header names: the first index whose name
/// matches, or nothing when no header does (a fatal configuration error
/// for the caller).
pub fn find_column(headers: &Vec<Vec<u8>>, column: &Vec<u8>) -> (position: Option<usize>)
    ensures
        match position {
            Some(i) => i < headers@.len() && headers@[i as int]@ == column@ && (forall|j: int|
                0 <= j < i ==> headers@[j]@ != column@),
            None => forall|j: int| 0 <= j < headers@.len() ==> headers@[j]@ != column@,
        },
{
    let n = headers.len();
    let mut i: usize = 0;
    while i < n
        invariant
            n == headers@.len(),
            0 <= i <= n,
            forall|j: int| 0 <= j < i ==> headers@[j]@ != column@,
        decreases n - i,
    {
        if bytes_eq(&headers[i], column) {
            return Some(i);
        }
        i = i + 1;
    }
    None
}

/// The nucleus-overlap rule for the initial partition: a transcript starts
/// in a cell only when its upstream cell id is non-negative and it
/// overlaps a nucleus; otherwise it starts in the background.
pub fn initial_cell_assignment(cell_id: i32, overlaps_nucleus: i32) -> (cell: u32)
    ensures
        cell == (if cell_id >= 0 && overlaps_nucleus > 0 {
            cell_id as u32
        } else {
            BACKGROUND_CELL
        }),
{
    if cell_id >= 0 && overlaps_nucleus > 0 {
        cell_id as u32
    } else {
        BACKGROUND_CELL
    }
}

/// Assigns a dense gene id to every row: each distinct name gets the next
/// id in first-seen order, and every row maps to its name's id.
pub fn assign_gene_ids(names: &Vec<Vec<u8>>) -> (result: (Vec<Vec<u8>>, Vec<u32>))
    requires
        names@.len() <= 0xffff_ffff,
    ensures
        result.0@.map_values(|v: Vec<u8>| v@) == dict_of(names@.map_values(|v: Vec<u8>| v@)),
        result.1@.len() == names@.len(),
        forall|i: int|
            0 <= i < names@.len() ==> (#[trigger] result.1@[i]) < result.0@.len(),
        forall|i: int|
            0 <= i < names@.len() ==> result.0@[result.1@[i] as int]@ == (
            #[trigger] names@[i])@,
{
    let ghost nview = names@.map_values(|v: Vec<u8>| v@);
    let n = names.len();
    let mut dict: Vec<Vec<u8>> = Vec::new();
    let mut ids: Vec<u32> = Vec::new();
    let mut i: usize = 0;
    while i < n
        invariant
            n == names@.len(),
            n <= 0xffff_ffff,
            nview == names@.map_values(|v: Vec<u8>| v@),
            0 <= i <= n,
            ids@.len() == i,
            dict@.len() <= i,
            dict@.map_values(|v: Vec<u8>| v@) == dict_of(nview.take(i as int)),
            forall|k: int| 0 <= k < i ==> (#[trigger] ids@[k]) < dict@.len(),
            forall|k: int| 0 <= k < i ==> dict@[ids@[k] as int]@ == (#[trigger] names@[k])@,
        decreases n - i,
    {
        let ghost dview = dict@.map_values(|v: Vec<u8>| v@);
        proof {
            lemma_dict_of_take_step(nview, i as int);
            assert(nview[i as int] == names@[i as int]@);
        }
        let mut found: Option<usize> = None;
        let dlen = dict.len();
        let mut k: usize = 0;
        while k < dlen
            invariant
                dlen == dict@.len(),
                0 <= k <= dlen,
                dview == dict@.map_values(|v: Vec<u8>| v@),
                i < names@.len(),
                match found {
                    Some(f) => f < dlen && dict@[f as int]@ == names@[i as int]@,
                    None => forall|j: int| 0 <= j < k ==> dict@[j]@ != names@[i as int]@,
                },
            decreases dlen - k,
        {
            if found.is_none() && bytes_eq(&dict[k], &names[i]) {
                found = Some(k);
            }
            k = k + 1;
        }
        match found {
            Some(f) => {
                proof {
                    assert(dview[f as int] == dict@[f as int]@);
                    assert(contains_name(dview, nview[i as int]));
                }
                ids.push(f as u32);
            },
            None => {
                proof {
                    assert forall|j: int| 0 <= j < dview.len() implies dview[j] != nview[i as int]
                        by {
                        assert(dview[j] == dict@[j]@);
                    }
                    assert(!contains_name(dview, nview[i as int]));
                }
                let id = dict.len();
                let entry = copy_bytes(&names[i]);
                dict.push(entry);
                ids.push(id as u32);
                proof {
                    assert(dict@.map_values(|v: Vec<u8>| v@) =~= dview.push(nview[i as int]));
                }
            },
        }
        proof {
            assert forall|kk: int| 0 <= kk < i + 1 implies dict@[ids@[kk] as int]@ == (
            #[trigger] names@[kk])@ by {
                if kk < i {
                    lemma_dict_of_take_prefix(nview, i as int);
                    assert(dict@.map_values(|v: Vec<u8>| v@)[ids@[kk] as int] == dict@[ids@[
                    kk] as int]@);
                }
            }
        }
        i = i + 1;
    }
    proof {
        assert(nview.take(n as int) =~= nview);
    }
    (dict, ids)
}

/// The transcript catalog: interned gene names, the immutable transcript
/// list, the initial partition derived from nucleus overlap, and the
/// per-cell population it implies.
pub struct Catalog {
    pub gene_names: Vec<Vec<u8>>,
    pub transcripts: Vec<Transcript>,
    pub cell_assignments: Vec<u32>,
    pub cell_population: Vec<usize>,
}

/// Assembles the catalog from already-parsed rows (name, coordinates,
/// upstream cell id, nucleus overlap): interns gene names into dense ids,
/// applies the nucleus-overlap rule for the initial partition, and tallies
/// the initial per-cell population.
pub fn build_catalog(
    names: &Vec<Vec<u8>>,
    xs: &Vec<i64>,
    ys: &Vec<i64>,
    zs: &Vec<i64>,
    cell_ids: &Vec<i32>,
    overlaps_nucleus: &Vec<i32>,
) -> (catalog: Catalog)
    requires
        xs@.len() == names@.len(),
        ys@.len() == names@.len(),
        zs@.len() == names@.len(),
        cell_ids@.len() == names@.len(),
        overlaps_nucleus@.len() == names@.len(),
        names@.len() <= 0xffff_ffff,
    ensures
        catalog.gene_names@.map_values(|v: Vec<u8>| v@) == dict_of(
            names@.map_values(|v: Vec<u8>| v@),
        ),
        catalog.transcripts@.len() == names@.len(),
        catalog.cell_assignments@.len() == names@.len(),
        forall|i: int|
            0 <= i < names@.len() ==> {
                let t = #[trigger] catalog.transcripts@[i];
                t.x == xs@[i] && t.y == ys@[i] && t.z == zs@[i] && t.gene
                    < catalog.gene_names@.len() && catalog.gene_names@[t.gene as int]@
                    == names@[i]@
            },
        forall|i: int|
            0 <= i < names@.len() ==> (#[trigger] catalog.cell_assignments@[i]) == (if cell_ids@[i]
                >= 0 && overlaps_nucleus@[i] > 0 {
                cell_ids@[i] as u32
            } else {
                BACKGROUND_CELL
            }),
        catalog.cell_population@.len() == ncells_of(catalog.cell_assignments@),
        forall|c: int|
            0 <= c < catalog.cell_population@.len() ==> catalog.cell_population@[c]
                == count_assigned(catalog.cell_assignments@, c),
        forall|i: int|
            0 <= i < names@.len() ==> (#[trigger] catalog.cell_assignments@[i] == BACKGROUND_CELL
                || catalog.cell_assignments@[i] < catalog.cell_population@.len()),
{
    let n = names.len();
    let (gene_names, gene_ids) = assign_gene_ids(names);

    let mut transcripts: Vec<Transcript> = Vec::new();
    let mut i: usize = 0;
    while i < n
        invariant
            n == names@.len(),
            xs@.len() == n,
            ys@.len() == n,
            zs@.len() == n,
            gene_ids@.len() == n,
            forall|k: int| 0 <= k < n ==> (#[trigger] gene_ids@[k]) < gene_names@.len(),
            forall|k: int|
                0 <= k < n ==> gene_names@[gene_ids@[k] as int]@ == (#[trigger] names@[k])@,
            0 <= i <= n,
            transcripts@.len() == i,
            forall|k: int|
                0 <= k < i ==> {
                    let t = #[trigger] transcripts@[k];
                    t.x == xs@[k] && t.y == ys@[k] && t.z == zs@[k] && t.gene == gene_ids@[k]
                },
        decreases n - i,
    {
        transcripts.push(
            Transcript { x: xs[i], y: ys[i], z: zs[i], gene: gene_ids[i] },
        );
        i = i + 1;
    }

    let mut cell_assignments: Vec<u32> = Vec::new();
    let mut i: usize = 0;
    while i < n
        invariant
            n == names@.len(),
            cell_ids@.len() == n,
            overlaps_nucleus@.len() == n,
            0 <= i <= n,
            cell_assignments@.len() == i,
            forall|k: int|
                0 <= k < i ==> (#[trigger] cell_assignments@[k]) == (if cell_ids@[k] >= 0
                    && overlaps_nucleus@[k] > 0 {
                    cell_ids@[k] as u32
                } else {
                    BACKGROUND_CELL
                }),
        decreases n - i,
    {
        let cell = initial_cell_assignment(cell_ids[i], overlaps_nucleus[i]);
        cell_assignments.push(cell);
        i = i + 1;
    }

    let cell_population = postprocess_cell_assignments(&cell_assignments);
    proof {
        assert forall|i: int|
            0 <= i < n implies (#[trigger] cell_assignments@[i] == BACKGROUND_CELL
                || cell_assignments@[i] < cell_population@.len()) by {
            if 0 <= i < n && cell_assignments@[i] != BACKGROUND_CELL {
                lemma_assigned_below_ncells(cell_assignments@, i);
            }
        }
    }

    Catalog { gene_names, transcripts, cell_assignments, cell_population }
}

} // verus!
