//! Pull expressions: retrieving the attributes of the entities that end
//! each input path, as flattened rows.

use vstd::prelude::*;

use crate::plan::Plan;
use crate::relation::PlanError;
use crate::value::{bag_of, clone_row, lemma_bag_push, row_of, Aid, Diff, Value, ValueModel, Var};

verus! {

/// A plan stage extracting all matching `[e a v]` tuples for a set of
/// attributes, from an input relation whose tuples end in an entity.
#[derive(Debug, PartialEq, Eq, Hash, PartialOrd, Ord)]
pub struct PullLevel {
    /// Variables of the stage.
    pub variables: Vec<Var>,
    /// Plan for the input relation.
    pub plan: Box<Plan>,
    /// Attributes to pull for the input entities.
    pub pull_attributes: Vec<Aid>,
    /// Attribute names interleaved with the path values, telling apart
    /// paths of the same length.
    pub path_attributes: Vec<Aid>,
}

/// A pull query split into independent paths.
#[derive(Debug, PartialEq, Eq, Hash, PartialOrd, Ord)]
pub struct Pull {
    /// Variables of the query.
    pub variables: Vec<Var>,
    /// The individual paths to pull.
    pub paths: Vec<PullLevel>,
}

/// The names of a list of attributes.
pub open spec fn names_of(a: Seq<Aid>) -> Seq<Seq<char>> {
    a.map_values(|s: Aid| s@)
}

/// Whether `nv` path values and `na` attribute names can be interleaved.
pub open spec fn interleave_fits(nv: int, na: int) -> bool {
    nv == 0 || na == 0 || nv == na || nv == na + 1
}

/// Path values at even positions and attribute names at odd ones; the
/// values unchanged when either list is empty.
pub open spec fn interleaved(values: Seq<ValueModel>, attrs: Seq<Seq<char>>) -> Seq<ValueModel> {
    if values.len() == 0 || attrs.len() == 0 {
        values
    } else {
        Seq::new(
            (values.len() + attrs.len()) as nat,
            |i: int|
                if i % 2 == 0 {
                    values[i / 2]
                } else {
                    ValueModel::Aid(attrs[i / 2])
                },
        )
    }
}

/// Interleaves path values with attribute names: `[v0, a0, v1, a1, ...]`.
/// Counts that do not fit are a shape mismatch.
pub fn interleave(values: &[Value], constants: &[Aid]) -> (r: Result<Vec<Value>, PlanError>)
    ensures
        r is Ok <==> interleave_fits(values@.len() as int, constants@.len() as int),
        r matches Ok(v) ==> row_of(v@) == interleaved(row_of(values@), names_of(constants@)),
        r matches Err(e) ==> e == PlanError::ShapeMismatch,
        values@.len() == 0 ==> (r matches Ok(v) && v@.len() == 0),
        constants@.len() == 0 ==> (r matches Ok(v) && v@ == values@),
        r matches Ok(v) ==> (values@.len() > 0 && constants@.len() > 0 ==> {
            &&& v@.len() == values@.len() + constants@.len()
            &&& forall|i: int| 0 <= i < v@.len() && i % 2 == 0 ==> #[trigger] v@[i] == values@[i / 2]
            &&& forall|i: int|
                0 <= i < v@.len() && i % 2 == 1 ==> #[trigger] v@[i] == Value::Aid(constants@[i / 2])
        }),
{
    if values.len() == 0 || constants.len() == 0 {
        return Ok(clone_row(values));
    }
    if !(values.len() - 1 == constants.len() || values.len() == constants.len()) {
        return Err(PlanError::ShapeMismatch);
    }
    let mut result: Vec<Value> = Vec::new();
    let mut j: usize = 0;
    while j < values.len()
        invariant
            values@.len() == constants@.len() || values@.len() == constants@.len() + 1,
            j <= values@.len(),
            result@.len() == (if j <= constants@.len() { 2 * j } else { 2 * j - 1 }),
            forall|k: int| 0 <= k < result@.len() && k % 2 == 0 ==> #[trigger] result@[k] == values@[k / 2],
            forall|k: int|
                0 <= k < result@.len() && k % 2 == 1 ==> #[trigger] result@[k] == Value::Aid(constants@[k / 2]),
        decreases values@.len() - j,
    {
        result.push(values[j].clone());
        if j < constants.len() {
            result.push(Value::Aid(constants[j].clone()));
        }
        j = j + 1;
    }
    assert(result@.len() == values@.len() + constants@.len());
    assert(row_of(result@) =~= interleaved(row_of(values@), names_of(constants@)));
    Ok(result)
}

/// The row pulled for a path, an attribute and one of its values: the
/// interleaved path, then the attribute, then the value.
pub open spec fn pulled_row(
    path: Seq<ValueModel>,
    pa: Seq<Seq<char>>,
    a: Seq<char>,
    v: ValueModel,
) -> Seq<ValueModel> {
    interleaved(path, pa) + seq![ValueModel::Aid(a), v]
}

/// Builds the row pulled for `path`, attribute `a` and value `v`.
pub fn pull_row(path: &[Value], path_attributes: &[Aid], a: &Aid, v: &Value) -> (r: Result<
    Vec<Value>,
    PlanError,
>)
    ensures
        r is Ok <==> interleave_fits(path@.len() as int, path_attributes@.len() as int),
        r matches Ok(row) ==> row_of(row@) == pulled_row(
            row_of(path@),
            names_of(path_attributes@),
            a@,
            v@,
        ),
        r matches Err(e) ==> e == PlanError::ShapeMismatch,
{
    match interleave(path, path_attributes) {
        Err(e) => Err(e),
        Ok(mut row) => {
            let ghost head = row@;
            row.push(Value::Aid(a.clone()));
            row.push(v.clone());
            assert(row_of(row@) =~= row_of(head) + seq![ValueModel::Aid(a@), v@]);
            Ok(row)
        },
    }
}

/// A collection of rows with their multiplicities, as seen by contracts.
pub type Bag = Seq<(Seq<ValueModel>, Diff)>;

/// Index entries as `(key, value)` pairs.
pub open spec fn pairs_of(ix: Seq<(Value, Value)>) -> Seq<(ValueModel, ValueModel)> {
    ix.map_values(|f: (Value, Value)| (f.0@, f.1@))
}

/// Whether every path can be interleaved with `na` attribute names.
pub open spec fn all_fit(b: Bag, na: int) -> bool {
    forall|i: int| 0 <= i < b.len() ==> interleave_fits(#[trigger] b[i].0.len() as int, na)
}

/// Every path interleaved with the attribute names.
pub open spec fn interleave_bag(b: Bag, pa: Seq<Seq<char>>) -> Bag {
    b.map_values(|u: (Seq<ValueModel>, Diff)| (interleaved(u.0, pa), u.1))
}

/// The rows pulled for one path against the index entries whose key is
/// the path's last value, in index order, with the path's multiplicity.
pub open spec fn join_path(
    path: (Seq<ValueModel>, Diff),
    pa: Seq<Seq<char>>,
    a: Seq<char>,
    index: Seq<(ValueModel, ValueModel)>,
) -> Bag
    decreases index.len(),
{
    if index.len() == 0 {
        seq![]
    } else {
        let rest = join_path(path, pa, a, index.drop_last());
        let f = index.last();
        if path.0.len() > 0 && f.0 == path.0.last() {
            rest.push((pulled_row(path.0, pa, a, f.1), path.1))
        } else {
            rest
        }
    }
}

/// The rows pulled for every path, in path order.
pub open spec fn join_paths(
    paths: Bag,
    pa: Seq<Seq<char>>,
    a: Seq<char>,
    index: Seq<(ValueModel, ValueModel)>,
) -> Bag
    decreases paths.len(),
{
    if paths.len() == 0 {
        seq![]
    } else {
        join_paths(paths.drop_last(), pa, a, index) + join_path(paths.last(), pa, a, index)
    }
}

/// Checks that every path can be interleaved with `na` attribute names.
pub fn check_shapes(tuples: &Vec<(Vec<Value>, Diff)>, na: usize) -> (r: bool)
    ensures
        r == all_fit(bag_of(tuples@), na as int),
{
    let mut i: usize = 0;
    while i < tuples.len()
        invariant
            i <= tuples@.len(),
            forall|j: int|
                0 <= j < i ==> interleave_fits(#[trigger] bag_of(tuples@)[j].0.len() as int, na as int),
        decreases tuples@.len() - i,
    {
        let n = tuples[i].0.len();
        if !(n == 0 || na == 0 || n == na || n - 1 == na) {
            assert(!interleave_fits(bag_of(tuples@)[i as int].0.len() as int, na as int));
            return false;
        }
        i = i + 1;
    }
    true
}

/// Interleaves every path with the attribute names.
pub fn interleave_tuples(tuples: &Vec<(Vec<Value>, Diff)>, pa: &Vec<Aid>) -> (r: Vec<(Vec<Value>, Diff)>)
    requires
        all_fit(bag_of(tuples@), pa@.len() as int),
    ensures
        bag_of(r@) == interleave_bag(bag_of(tuples@), names_of(pa@)),
{
    let mut r: Vec<(Vec<Value>, Diff)> = Vec::new();
    let mut i: usize = 0;
    while i < tuples.len()
        invariant
            i <= tuples@.len(),
            all_fit(bag_of(tuples@), pa@.len() as int),
            bag_of(r@) == interleave_bag(bag_of(tuples@), names_of(pa@)).subrange(0, i as int),
        decreases tuples@.len() - i,
    {
        assert(interleave_fits(bag_of(tuples@)[i as int].0.len() as int, pa@.len() as int));
        let row = match interleave(tuples[i].0.as_slice(), pa.as_slice()) {
            Ok(row) => row,
            Err(_) => {
                assert(false);
                Vec::new()
            },
        };
        proof {
            lemma_bag_push(r@, (row, tuples@[i as int].1));
        }
        r.push((row, tuples[i].1));
        i = i + 1;
        assert(bag_of(r@) =~= interleave_bag(bag_of(tuples@), names_of(pa@)).subrange(0, i as int));
    }
    assert(bag_of(r@) =~= interleave_bag(bag_of(tuples@), names_of(pa@)));
    r
}

/// Appends the rows pulled for attribute `a` from its index.
pub fn join_into(
    paths: &Vec<(Vec<Value>, Diff)>,
    pa: &Vec<Aid>,
    a: &Aid,
    index: &Vec<(Value, Value)>,
    out: &mut Vec<(Vec<Value>, Diff)>,
)
    requires
        all_fit(bag_of(paths@), pa@.len() as int),
    ensures
        bag_of(final(out)@) == bag_of(old(out)@) + join_paths(
            bag_of(paths@),
            names_of(pa@),
            a@,
            pairs_of(index@),
        ),
{
    let ghost start = bag_of(out@);
    let ghost pb = bag_of(paths@);
    let ghost ix = pairs_of(index@);
    let ghost na = names_of(pa@);
    let mut i: usize = 0;
    while i < paths.len()
        invariant
            i <= paths@.len(),
            pb == bag_of(paths@),
            ix == pairs_of(index@),
            na == names_of(pa@),
            all_fit(pb, pa@.len() as int),
            bag_of(out@) == start + join_paths(pb.subrange(0, i as int), na, a@, ix),
        decreases paths@.len() - i,
    {
        let path = &paths[i].0;
        let m = paths[i].1;
        assert(pb[i as int] == (row_of(path@), m));
        let ghost mid = bag_of(out@);
        let mut j: usize = 0;
        while j < index.len()
            invariant
                i < paths@.len(),
                j <= index@.len(),
                pb == bag_of(paths@),
                ix == pairs_of(index@),
                na == names_of(pa@),
                all_fit(pb, pa@.len() as int),
                pb[i as int] == (row_of(path@), m),
                bag_of(out@) == mid + join_path(pb[i as int], na, a@, ix.subrange(0, j as int)),
            decreases index@.len() - j,
        {
            proof {
                assert(ix.subrange(0, j + 1).drop_last() =~= ix.subrange(0, j as int));
                assert(ix.subrange(0, j + 1).last() == ix[j as int]);
            }
            if path.len() > 0 && index[j].0.equals(&path[path.len() - 1]) {
                assert(interleave_fits(pb[i as int].0.len() as int, pa@.len() as int));
                let row = match pull_row(path.as_slice(), pa.as_slice(), a, &index[j].1) {
                    Ok(row) => row,
                    Err(_) => {
                        assert(false);
                        Vec::new()
                    },
                };
                proof {
                    lemma_bag_push(out@, (row, m));
                    assert(row_of(path@).last() == path@.last()@);
                    let jp = join_path(pb[i as int], na, a@, ix.subrange(0, j as int));
                    assert(mid + jp.push((row_of(row@), m)) =~= (mid + jp).push(
                        (row_of(row@), m),
                    ));
                }
                out.push((row, m));
            } else {
                proof {
                    if path@.len() > 0 {
                        assert(row_of(path@).last() == path@.last()@);
                    }
                }
            }
            j = j + 1;
        }
        proof {
            assert(ix.subrange(0, index@.len() as int) == ix);
            assert(pb.subrange(0, i + 1).drop_last() =~= pb.subrange(0, i as int));
            assert(pb.subrange(0, i + 1).last() == pb[i as int]);
            let a0 = join_paths(pb.subrange(0, i as int), na, a@, ix);
            let b0 = join_path(pb[i as int], na, a@, ix);
            assert(start + a0 + b0 =~= start + (a0 + b0));
        }
        i = i + 1;
    }
    assert(pb.subrange(0, paths@.len() as int) == pb);
}

} // verus!
