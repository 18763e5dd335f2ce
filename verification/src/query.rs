//! Results of a query: one row of values per match, in the order of the
//! query's variables.

use vstd::prelude::*;

verus! {

/// An opaque value stored in the database.
#[derive(Clone, Copy, PartialEq, Eq, Debug, Hash, Structural)]
pub struct Value {
    rep: u32,
}

impl Value {
    /// The value with the given representation.
    pub fn new(rep: u32) -> (r: Value)
        ensures
            r.spec_rep() == rep,
    {
        Value { rep }
    }

    /// The representation.
    pub fn rep(&self) -> (r: u32)
        ensures
            r == self.spec_rep(),
    {
        self.rep
    }

    /// The representation.
    pub closed spec fn spec_rep(&self) -> u32 {
        self.rep
    }
}

/// Abstract contents of a query result.
pub struct QueryResultView {
    /// Number of matches recorded.
    pub rows: nat,
    /// Number of values per match (the number of query variables).
    pub cols: nat,
    /// All recorded values, match after match.
    pub data: Seq<Value>,
}

/// The rows of `data` cut into consecutive chunks of `cols` values.
pub open spec fn chunks(data: Seq<Value>, cols: nat) -> Seq<Seq<Value>> {
    Seq::new(
        data.len() / cols,
        |i: int| data.subrange(i * cols, i * cols + cols),
    )
}

/// The concatenation of rows.
pub open spec fn flatten(rows: Seq<Seq<Value>>) -> Seq<Value>
    decreases rows.len(),
{
    if rows.len() == 0 {
        Seq::empty()
    } else {
        flatten(rows.drop_last()) + rows.last()
    }
}

/// The result of a query.
pub struct QueryResult {
    rows: usize,
    cols: usize,
    data: Vec<Value>,
}

impl View for QueryResult {
    type V = QueryResultView;

    closed spec fn view(&self) -> QueryResultView {
        QueryResultView { rows: self.rows as nat, cols: self.cols as nat, data: self.data@ }
    }
}

impl QueryResult {
    /// Every match recorded holds one value per variable.
    #[verifier::type_invariant]
    pub closed spec fn wf(self) -> bool {
        self.data@.len() == self.rows * self.cols
    }

    /// An empty result for a query over `cols` variables.
    pub fn new(cols: usize) -> (r: QueryResult)
        ensures
            r@.rows == 0,
            r@.cols == cols,
            r@.data == Seq::<Value>::empty(),
    {
        QueryResult { rows: 0, cols, data: Vec::new() }
    }

    /// Record one match: its values, one per variable, in the order of the
    /// query's variables.
    pub fn record_match(&mut self, values: &[Value])
        requires
            values@.len() == old(self)@.cols,
            old(self)@.rows < usize::MAX,
            old(self)@.data.len() + values@.len() <= usize::MAX,
        ensures
            final(self)@.rows == old(self)@.rows + 1,
            final(self)@.cols == old(self)@.cols,
            final(self)@.data == old(self)@.data + values@,
            final(self)@.data.len() == final(self)@.rows * final(self)@.cols,
    {
        proof {
            use_type_invariant(&*self);
        }
        let mut taken = QueryResult::new(self.cols);
        std::mem::swap(self, &mut taken);
        let QueryResult { rows, cols, mut data } = taken;
        let ghost start = data@;
        let n = values.len();
        for i in 0..n
            invariant
                n == values@.len(),
                data@ == start + values@.subrange(0, i as int),
        {
            data.push(values[i]);
            assert(values@.subrange(0, i + 1) == values@.subrange(0, i as int).push(values@[i as int]));
        }
        assert(values@.subrange(0, n as int) == values@);
        assert(data@.len() == (rows + 1) * cols) by (nonlinear_arith)
            requires
                data@.len() == start.len() + n,
                start.len() == rows * cols,
                n == cols,
        ;
        *self = QueryResult { rows: rows + 1, cols, data };
    }

    /// Every match, as the values bound to the query's variables in order.
    /// Needs at least one variable (use `any_matches` otherwise).
    pub fn iter(&self) -> (r: Vec<Vec<Value>>)
        requires
            self@.cols > 0,
        ensures
            r@.len() == self@.rows,
            r@.len() == chunks(self@.data, self@.cols).len(),
            forall|i: int| 0 <= i < r@.len() ==> #[trigger] r@[i]@ == chunks(self@.data, self@.cols)[i],
    {
        proof {
            use_type_invariant(self);
            vstd::arithmetic::div_mod::lemma_div_multiples_vanish(self.rows as int, self.cols as int);
            vstd::arithmetic::mul::lemma_mul_is_commutative(self.rows as int, self.cols as int);
        }
        let cols = self.cols;
        let n = self.data.len() / cols;
        let mut out: Vec<Vec<Value>> = Vec::new();
        let mut k: usize = 0;
        while k < n
            invariant
                cols == self@.cols,
                cols > 0,
                n == self@.data.len() / (cols as nat),
                k <= n,
                out@.len() == k,
                forall|i: int| 0 <= i < k ==> #[trigger] out@[i]@ == chunks(self@.data, self@.cols)[i],
            decreases n - k,
        {
            assert(k * cols + cols <= self.data.len()) by (nonlinear_arith)
                requires
                    k < n,
                    n == (self.data.len() as int) / (cols as int),
                    cols > 0,
            ;
            let start = k * cols;
            let mut row: Vec<Value> = Vec::new();
            let mut j: usize = 0;
            while j < cols
                invariant
                    start + cols <= self.data.len(),
                    j <= cols,
                    row@ == self.data@.subrange(start as int, start + j),
                decreases cols - j,
            {
                row.push(self.data[start + j]);
                assert(self.data@.subrange(start as int, start + j + 1) == self.data@.subrange(
                    start as int,
                    start + j,
                ).push(self.data@[start + j]));
                j = j + 1;
            }
            out.push(row);
            k = k + 1;
        }
        out
    }

    /// Whether any match was recorded at all.
    pub fn any_matches(&self) -> (r: bool)
        ensures
            r == (self@.rows > 0),
    {
        self.rows > 0
    }

    /// All recorded values, match after match.
    pub fn data(&self) -> (r: &[Value])
        ensures
            r@ == self@.data,
    {
        self.data.as_slice()
    }
}

/// Rows that each have `cols` values flatten to `rows.len() * cols` values.
proof fn lemma_flatten_len(rows: Seq<Seq<Value>>, cols: nat)
    requires
        forall|i: int| 0 <= i < rows.len() ==> (#[trigger] rows[i]).len() == cols,
    ensures
        flatten(rows).len() == rows.len() * cols,
    decreases rows.len(),
{
    if rows.len() > 0 {
        let init = rows.drop_last();
        assert forall|i: int| 0 <= i < init.len() implies (#[trigger] init[i]).len() == cols by {
            assert(init[i] == rows[i]);
        }
        lemma_flatten_len(init, cols);
        assert(rows.len() * cols == init.len() * cols + cols) by (nonlinear_arith)
            requires
                rows.len() == init.len() + 1,
        ;
    }
}

/// Matches recorded one after another, each with one value per variable,
/// are given back by `iter` as exactly those matches, in the same order;
/// and the recorded data then always satisfies what `iter` requires.
pub proof fn law_matches_in_order(rows: Seq<Seq<Value>>, cols: nat)
    requires
        cols > 0,
        forall|i: int| 0 <= i < rows.len() ==> (#[trigger] rows[i]).len() == cols,
    ensures
        flatten(rows).len() % cols == 0,
        chunks(flatten(rows), cols) == rows,
    decreases rows.len(),
{
    lemma_flatten_len(rows, cols);
    vstd::arithmetic::div_mod::lemma_mod_multiples_basic(rows.len() as int, cols as int);
    vstd::arithmetic::div_mod::lemma_div_multiples_vanish(rows.len() as int, cols as int);
    assert(flatten(rows).len() / cols == rows.len()) by {
        vstd::arithmetic::mul::lemma_mul_is_commutative(rows.len() as int, cols as int);
    }
    if rows.len() > 0 {
        let init = rows.drop_last();
        assert forall|i: int| 0 <= i < init.len() implies (#[trigger] init[i]).len() == cols by {
            assert(init[i] == rows[i]);
        }
        law_matches_in_order(init, cols);
        lemma_flatten_len(init, cols);
        let data = flatten(rows);
        let k = init.len() as int;
        assert(data == flatten(init) + rows.last());
        assert forall|i: int| 0 <= i < rows.len() implies #[trigger] chunks(data, cols)[i]
            == rows[i] by {
            assert(i * cols + cols <= data.len()) by (nonlinear_arith)
                requires
                    0 <= i < rows.len(),
                    data.len() == rows.len() * cols,
            ;
            if i < k {
                assert(i * cols + cols <= flatten(init).len()) by (nonlinear_arith)
                    requires
                        0 <= i < k,
                        flatten(init).len() == k * cols,
                ;
                assert(data.subrange(i * cols, i * cols + cols) == flatten(init).subrange(
                    i * cols,
                    i * cols + cols,
                ));
                assert(chunks(flatten(init), cols)[i] == init[i]);
            } else {
                assert(i * cols == flatten(init).len()) by (nonlinear_arith)
                    requires
                        i == k,
                        flatten(init).len() == k * cols,
                ;
                assert(data.subrange(i * cols, i * cols + cols) == rows.last());
            }
        }
        assert(chunks(data, cols) =~= rows);
    } else {
        assert(chunks(flatten(rows), cols) =~= rows);
    }
}

} // verus!
