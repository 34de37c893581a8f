//! The operator registry: the functions and operators a query can name.

use vstd::prelude::*;
use crate::floats::FloatMath;
use crate::ops::binary::BinaryKind;
use crate::ops::math::ReduceKind;
use crate::ops::unary::UnaryKind;
use crate::result::{ErrorType, SqlError, SqlResult};
use crate::table::Column;
use crate::text::push_text;

pub mod binary_ops;
pub mod binary;
pub mod unary;
pub mod dates;
pub mod math;
pub mod general;

verus! {

/// An operator that makes one column of a list of columns, row by row.
/// The registry takes any implementation; nothing is assumed of what one
/// returns.
pub trait MapOp {
    fn apply(&self, arguments: &Vec<&Column>) -> SqlResult<Column>;
}

/// An operator that makes a one-row column of a column.
pub trait ReduceOp {
    fn reduce(&self, argument: &Column) -> SqlResult<Column>;
}

/// The map operators that the registry is seeded with.
#[derive(Clone, Copy, Debug, PartialEq, Eq, Structural)]
pub enum MapKind {
    Binary(BinaryKind),
    Unary(UnaryKind),
}

/// A registered map operator: one of the seeded ones, or one that the
/// embedding program brought.
pub enum MapImpl {
    Builtin(MapKind),
    Custom(Box<dyn MapOp>),
}

/// A registered reduce operator.
pub enum ReduceImpl {
    Builtin(ReduceKind),
    Custom(Box<dyn ReduceOp>),
}

pub struct MapEntry {
    pub name: String,
    pub op: MapImpl,
}

pub struct ReduceEntry {
    pub name: String,
    pub op: ReduceImpl,
}

/// The registry. Where a name was registered more than once, the last
/// registration holds.
pub struct OpContext {
    pub applies: Vec<MapEntry>,
    pub reducers: Vec<ReduceEntry>,
    /// The float arithmetic that the seeded operators use.
    pub floats: Box<dyn FloatMath>,
}

/// The place of the last map operator registered under `name`.
pub open spec fn find_map(entries: Seq<MapEntry>, name: Seq<char>) -> Option<int>
    decreases entries.len(),
{
    if entries.len() == 0 {
        None
    } else if entries.last().name@ == name {
        Some(entries.len() - 1)
    } else {
        find_map(entries.drop_last(), name)
    }
}

/// The place of the last reduce operator registered under `name`.
pub open spec fn find_reduce(entries: Seq<ReduceEntry>, name: Seq<char>) -> Option<int>
    decreases entries.len(),
{
    if entries.len() == 0 {
        None
    } else if entries.last().name@ == name {
        Some(entries.len() - 1)
    } else {
        find_reduce(entries.drop_last(), name)
    }
}

/// The map operators a new registry holds, by name.
pub open spec fn seeded_map(name: Seq<char>) -> Option<MapKind> {
    if name == "not_null"@ {
        Some(MapKind::Unary(UnaryKind::NotNull))
    } else if name == "is_null"@ {
        Some(MapKind::Unary(UnaryKind::IsNull))
    } else if name == "year"@ {
        Some(MapKind::Unary(UnaryKind::Year))
    } else if name == "<="@ {
        Some(MapKind::Binary(BinaryKind::LessOrEqual))
    } else if name == ">="@ {
        Some(MapKind::Binary(BinaryKind::GreaterOrEqual))
    } else if name == "<"@ {
        Some(MapKind::Binary(BinaryKind::Less))
    } else if name == ">"@ {
        Some(MapKind::Binary(BinaryKind::Greater))
    } else if name == "="@ {
        Some(MapKind::Binary(BinaryKind::Equal))
    } else if name == "!="@ {
        Some(MapKind::Binary(BinaryKind::NotEqual))
    } else if name == "xor"@ {
        Some(MapKind::Binary(BinaryKind::Xor))
    } else if name == "and"@ {
        Some(MapKind::Binary(BinaryKind::And))
    } else if name == "or"@ {
        Some(MapKind::Binary(BinaryKind::Or))
    } else if name == "!"@ {
        Some(MapKind::Unary(UnaryKind::Not))
    } else if name == "%"@ {
        Some(MapKind::Binary(BinaryKind::Modulo))
    } else if name == "/"@ {
        Some(MapKind::Binary(BinaryKind::Divide))
    } else if name == "-"@ {
        Some(MapKind::Binary(BinaryKind::Subtract))
    } else if name == "*"@ {
        Some(MapKind::Binary(BinaryKind::Multiply))
    } else if name == "+"@ {
        Some(MapKind::Binary(BinaryKind::Add))
    } else {
        None
    }
}

/// The reduce operators a new registry holds, by name.
pub open spec fn seeded_reduce(name: Seq<char>) -> Option<ReduceKind> {
    if name == "count"@ {
        Some(ReduceKind::Count)
    } else if name == "sum"@ {
        Some(ReduceKind::Sum)
    } else if name == "mean"@ {
        Some(ReduceKind::Mean)
    } else if name == "min"@ {
        Some(ReduceKind::Min)
    } else if name == "max"@ {
        Some(ReduceKind::Max)
    } else {
        None
    }
}

impl MapKind {
    /// What the operator may return for the given arguments.
    pub open spec fn allows(self, arguments: Seq<&Column>, r: SqlResult<Column>) -> bool {
        match self {
            MapKind::Unary(kind) => kind.allows(arguments, r),
            MapKind::Binary(kind) => match kind.outcome(arguments) {
                Err(error) => r is Err && r->Err_0.type_ == error,
                Ok(sizes) => r is Ok && kind.allows_column(sizes, arguments[0]@, arguments[1]@, r->Ok_0@),
            },
        }
    }
}

fn owned(text: &str) -> (r: String)
    ensures
        r@ == text@,
{
    let mut r = String::new();
    push_text(&mut r, text);
    r
}

fn custom_map(name: &str, op: Box<dyn MapOp>) -> (e: MapEntry)
    ensures
        e.name@ == name@,
        e.op == MapImpl::Custom(op),
{
    MapEntry { name: owned(name), op: MapImpl::Custom(op) }
}

fn custom_reduce(name: &str, op: Box<dyn ReduceOp>) -> (e: ReduceEntry)
    ensures
        e.name@ == name@,
        e.op == ReduceImpl::Custom(op),
{
    ReduceEntry { name: owned(name), op: ReduceImpl::Custom(op) }
}

/// A name that is found is found at a place of the list.
pub proof fn lemma_find_map_bound(entries: Seq<MapEntry>, name: Seq<char>)
    ensures
        match find_map(entries, name) {
            Some(i) => 0 <= i < entries.len() && entries[i].name@ == name,
            None => true,
        },
    decreases entries.len(),
{
    if entries.len() > 0 && entries.last().name@ != name {
        lemma_find_map_bound(entries.drop_last(), name);
    }
}

/// A name that is found is found at a place of the list.
pub proof fn lemma_find_reduce_bound(entries: Seq<ReduceEntry>, name: Seq<char>)
    ensures
        match find_reduce(entries, name) {
            Some(i) => 0 <= i < entries.len() && entries[i].name@ == name,
            None => true,
        },
    decreases entries.len(),
{
    if entries.len() > 0 && entries.last().name@ != name {
        lemma_find_reduce_bound(entries.drop_last(), name);
    }
}

impl OpContext {
    /// The place of the map operator that `name` stands for.
    pub open spec fn map_slot(&self, name: Seq<char>) -> Option<int> {
        find_map(self.applies@, name)
    }

    /// The place of the reduce operator that `name` stands for.
    pub open spec fn reduce_slot(&self, name: Seq<char>) -> Option<int> {
        find_reduce(self.reducers@, name)
    }

    /// The seeded map operator that `name` stands for, if it stands for
    /// one.
    pub open spec fn builtin_map(&self, name: Seq<char>) -> Option<MapKind> {
        match self.map_slot(name) {
            Some(i) => match self.applies@[i].op {
                MapImpl::Builtin(kind) => Some(kind),
                MapImpl::Custom(_) => None,
            },
            None => None,
        }
    }

    /// The seeded reduce operator that `name` stands for, if it stands for
    /// one.
    pub open spec fn builtin_reduce(&self, name: Seq<char>) -> Option<ReduceKind> {
        match self.reduce_slot(name) {
            Some(i) => match self.reducers@[i].op {
                ReduceImpl::Builtin(kind) => Some(kind),
                ReduceImpl::Custom(_) => None,
            },
            None => None,
        }
    }

    /// What `apply` may return: a `Lookup` error for a name that is no map
    /// operator, what a seeded operator gives, and anything from an
    /// operator that was brought.
    pub open spec fn apply_allows(&self, name: Seq<char>, arguments: Seq<&Column>, r: SqlResult<Column>) -> bool {
        match self.map_slot(name) {
            None => r is Err && r->Err_0.type_ == ErrorType::Lookup,
            Some(i) => match self.applies@[i].op {
                MapImpl::Builtin(kind) => kind.allows(arguments, r),
                MapImpl::Custom(_) => true,
            },
        }
    }

    /// What `reduce` may return, in the same way.
    pub open spec fn reduce_allows(&self, name: Seq<char>, argument: Column, r: SqlResult<Column>) -> bool {
        match self.reduce_slot(name) {
            None => r is Err && r->Err_0.type_ == ErrorType::Lookup,
            Some(i) => match self.reducers@[i].op {
                ReduceImpl::Builtin(kind) => kind.allows(argument, r),
                ReduceImpl::Custom(_) => true,
            },
        }
    }

    /// What `dispatch` may return: what `apply` may where the name is a map
    /// operator; else, where it is a reduce operator, what `reduce` may on
    /// the one argument, or a `Runtime` error for any other number of
    /// arguments; else a `Lookup` error.
    pub open spec fn dispatch_allows(&self, name: Seq<char>, arguments: Seq<&Column>, r: SqlResult<Column>) -> bool {
        if self.map_slot(name) is Some {
            self.apply_allows(name, arguments, r)
        } else if self.reduce_slot(name) is Some {
            if arguments.len() != 1 {
                r is Err && r->Err_0.type_ == ErrorType::Runtime
            } else {
                self.reduce_allows(name, *arguments[0], r)
            }
        } else {
            r is Err && r->Err_0.type_ == ErrorType::Lookup
        }
    }

    fn seed_map(&mut self, name: &str, kind: MapKind)
        ensures
            final(self).reducers == old(self).reducers,
            forall|n: Seq<char>|
                #![trigger final(self).builtin_reduce(n)]
                final(self).builtin_reduce(n) == old(self).builtin_reduce(n),
            forall|n: Seq<char>|
                #![trigger final(self).reduce_slot(n)]
                final(self).reduce_slot(n) == old(self).reduce_slot(n),
            forall|n: Seq<char>|
                #![trigger final(self).builtin_map(n)]
                final(self).builtin_map(n) == if n == name@ {
                    Some(kind)
                } else {
                    old(self).builtin_map(n)
                },
            forall|n: Seq<char>|
                #![trigger final(self).map_slot(n)]
                final(self).map_slot(n) is Some <==> n == name@ || old(self).map_slot(n) is Some,
    {
        let entry = MapEntry { name: owned(name), op: MapImpl::Builtin(kind) };
        self.applies.push(entry);
        assert(self.applies@.drop_last() =~= old(self).applies@);
        assert forall|n: Seq<char>| #![trigger self.builtin_map(n)] self.builtin_map(n) == if n == name@ {
            Some(kind)
        } else {
            old(self).builtin_map(n)
        } by {
            lemma_find_map_bound(old(self).applies@, n);
        }
    }

    fn seed_reduce(&mut self, name: &str, kind: ReduceKind)
        ensures
            final(self).applies == old(self).applies,
            forall|n: Seq<char>|
                #![trigger final(self).builtin_map(n)]
                final(self).builtin_map(n) == old(self).builtin_map(n),
            forall|n: Seq<char>|
                #![trigger final(self).map_slot(n)]
                final(self).map_slot(n) == old(self).map_slot(n),
            forall|n: Seq<char>|
                #![trigger final(self).builtin_reduce(n)]
                final(self).builtin_reduce(n) == if n == name@ {
                    Some(kind)
                } else {
                    old(self).builtin_reduce(n)
                },
            forall|n: Seq<char>|
                #![trigger final(self).reduce_slot(n)]
                final(self).reduce_slot(n) is Some <==> n == name@ || old(self).reduce_slot(n) is Some,
    {
        let entry = ReduceEntry { name: owned(name), op: ReduceImpl::Builtin(kind) };
        self.reducers.push(entry);
        assert(self.reducers@.drop_last() =~= old(self).reducers@);
        assert forall|n: Seq<char>| #![trigger self.builtin_reduce(n)] self.builtin_reduce(n) == if n
            == name@ {
            Some(kind)
        } else {
            old(self).builtin_reduce(n)
        } by {
            lemma_find_reduce_bound(old(self).reducers@, n);
        }
    }

    /// A registry with the seeded operators, which do their float
    /// arithmetic through `floats`.
    pub fn new(floats: Box<dyn FloatMath>) -> (context: Self)
        ensures
            forall|n: Seq<char>| #[trigger] context.builtin_map(n) == seeded_map(n),
            forall|n: Seq<char>| #[trigger] context.map_slot(n) is Some <==> seeded_map(n) is Some,
            forall|n: Seq<char>| #[trigger] context.builtin_reduce(n) == seeded_reduce(n),
            forall|n: Seq<char>| #[trigger] context.reduce_slot(n) is Some <==> seeded_reduce(n) is Some,
    {
        let mut context = OpContext { applies: Vec::new(), reducers: Vec::new(), floats };
        context.seed_map("+", MapKind::Binary(BinaryKind::Add));
        context.seed_map("*", MapKind::Binary(BinaryKind::Multiply));
        context.seed_map("-", MapKind::Binary(BinaryKind::Subtract));
        context.seed_map("/", MapKind::Binary(BinaryKind::Divide));
        context.seed_map("%", MapKind::Binary(BinaryKind::Modulo));
        context.seed_reduce("max", ReduceKind::Max);
        context.seed_reduce("min", ReduceKind::Min);
        context.seed_reduce("mean", ReduceKind::Mean);
        context.seed_reduce("sum", ReduceKind::Sum);
        context.seed_map("!", MapKind::Unary(UnaryKind::Not));
        context.seed_map("or", MapKind::Binary(BinaryKind::Or));
        context.seed_map("and", MapKind::Binary(BinaryKind::And));
        context.seed_map("xor", MapKind::Binary(BinaryKind::Xor));
        context.seed_map("!=", MapKind::Binary(BinaryKind::NotEqual));
        context.seed_map("=", MapKind::Binary(BinaryKind::Equal));
        context.seed_map(">", MapKind::Binary(BinaryKind::Greater));
        context.seed_map("<", MapKind::Binary(BinaryKind::Less));
        context.seed_map(">=", MapKind::Binary(BinaryKind::GreaterOrEqual));
        context.seed_map("<=", MapKind::Binary(BinaryKind::LessOrEqual));
        context.seed_map("year", MapKind::Unary(UnaryKind::Year));
        context.seed_reduce("count", ReduceKind::Count);
        context.seed_map("is_null", MapKind::Unary(UnaryKind::IsNull));
        context.seed_map("not_null", MapKind::Unary(UnaryKind::NotNull));
        context
    }

    fn locate_map(&self, function: &str) -> (r: Option<usize>)
        ensures
            r matches Some(i) ==> self.map_slot(function@) == Some(i as int) && i < self.applies@.len(),
            r is None ==> self.map_slot(function@) is None,
    {
        let mut i: usize = self.applies.len();
        assert(self.applies@.take(i as int) =~= self.applies@);
        while i > 0
            invariant
                i <= self.applies@.len(),
                self.map_slot(function@) == find_map(self.applies@.take(i as int), function@),
            decreases i,
        {
            i = i - 1;
            assert(self.applies@.take(i + 1).last() == self.applies@[i as int]);
            assert(self.applies@.take(i + 1).drop_last() =~= self.applies@.take(i as int));
            if *self.applies[i].name.as_str() == *function {
                return Some(i);
            }
        }
        None
    }

    fn locate_reduce(&self, function: &str) -> (r: Option<usize>)
        ensures
            r matches Some(i) ==> self.reduce_slot(function@) == Some(i as int) && i
                < self.reducers@.len(),
            r is None ==> self.reduce_slot(function@) is None,
    {
        let mut i: usize = self.reducers.len();
        assert(self.reducers@.take(i as int) =~= self.reducers@);
        while i > 0
            invariant
                i <= self.reducers@.len(),
                self.reduce_slot(function@) == find_reduce(self.reducers@.take(i as int), function@),
            decreases i,
        {
            i = i - 1;
            assert(self.reducers@.take(i + 1).last() == self.reducers@[i as int]);
            assert(self.reducers@.take(i + 1).drop_last() =~= self.reducers@.take(i as int));
            if *self.reducers[i].name.as_str() == *function {
                return Some(i);
            }
        }
        None
    }

    fn apply_at(&self, slot: usize, arguments: &Vec<&Column>) -> (r: SqlResult<Column>)
        requires
            slot < self.applies@.len(),
        ensures
            match self.applies@[slot as int].op {
                MapImpl::Builtin(kind) => kind.allows(arguments@, r),
                MapImpl::Custom(_) => true,
            },
    {
        match &self.applies[slot].op {
            MapImpl::Builtin(MapKind::Binary(kind)) => kind.apply(arguments, &*self.floats),
            MapImpl::Builtin(MapKind::Unary(kind)) => kind.apply(arguments),
            MapImpl::Custom(op) => op.apply(arguments),
        }
    }

    fn reduce_at(&self, slot: usize, argument: &Column) -> (r: SqlResult<Column>)
        requires
            slot < self.reducers@.len(),
        ensures
            match self.reducers@[slot as int].op {
                ReduceImpl::Builtin(kind) => kind.allows(*argument, r),
                ReduceImpl::Custom(_) => true,
            },
    {
        match &self.reducers[slot].op {
            ReduceImpl::Builtin(kind) => kind.reduce(argument, &*self.floats),
            ReduceImpl::Custom(op) => op.reduce(argument),
        }
    }

    /// Applies the map operator `function` to `arguments`.
    pub fn apply(&self, function: &str, arguments: &Vec<&Column>) -> (r: SqlResult<Column>)
        ensures
            self.apply_allows(function@, arguments@, r),
    {
        match self.locate_map(function) {
            Some(slot) => self.apply_at(slot, arguments),
            None => Err(SqlError::new("no such op", ErrorType::Lookup)),
        }
    }

    /// Reduces `argument` with the reduce operator `function`.
    pub fn reduce(&self, function: &str, argument: &Column) -> (r: SqlResult<Column>)
        ensures
            self.reduce_allows(function@, *argument, r),
    {
        match self.locate_reduce(function) {
            Some(slot) => self.reduce_at(slot, argument),
            None => Err(SqlError::new("no such reducer", ErrorType::Lookup)),
        }
    }

    /// Calls `function` by name: a map operator on all the arguments, else
    /// a reduce operator on its one argument (any other number of arguments
    /// is a `Runtime` error); a name that is neither is a `Lookup` error.
    pub fn dispatch(&self, function: &str, arguments: &Vec<&Column>) -> (r: SqlResult<Column>)
        ensures
            self.dispatch_allows(function@, arguments@, r),
    {
        match self.locate_map(function) {
            Some(slot) => self.apply_at(slot, arguments),
            None => match self.locate_reduce(function) {
                Some(slot) => {
                    if arguments.len() != 1 {
                        Err(SqlError::args_length_error(1, arguments.len(), function))
                    } else {
                        self.reduce_at(slot, arguments[0])
                    }
                },
                None => Err(SqlError::new("could not find function", ErrorType::Lookup)),
            },
        }
    }

    /// Registers a map operator under `function`, in place of the one that
    /// was there.
    pub fn set_apply(&mut self, function: &str, op: Box<dyn MapOp>)
        ensures
            final(self).reducers == old(self).reducers,
            final(self).applies@.len() == old(self).applies@.len() + 1,
            final(self).map_slot(function@) == Some(old(self).applies@.len() as int),
            final(self).applies@.last().op is Custom,
            forall|n: Seq<char>|
                n != function@ ==> #[trigger] final(self).builtin_map(n) == old(self).builtin_map(n),
    {
        let entry = custom_map(function, op);
        let ghost added = entry;
        self.applies.push(entry);
        assert(self.applies@.last() == added);
        assert(self.applies@.drop_last() =~= old(self).applies@);
        assert forall|n: Seq<char>| n != function@ implies #[trigger] self.builtin_map(n) == old(
            self,
        ).builtin_map(n) by {
            lemma_find_map_bound(old(self).applies@, n);
        }
    }

    /// Registers a reduce operator under `function`, in place of the one
    /// that was there.
    pub fn set_reduce(&mut self, function: &str, op: Box<dyn ReduceOp>)
        ensures
            final(self).applies == old(self).applies,
            final(self).reducers@.len() == old(self).reducers@.len() + 1,
            final(self).reduce_slot(function@) == Some(old(self).reducers@.len() as int),
            final(self).reducers@.last().op is Custom,
            forall|n: Seq<char>|
                n != function@ ==> #[trigger] final(self).builtin_reduce(n) == old(self).builtin_reduce(
                    n,
                ),
    {
        let entry = custom_reduce(function, op);
        let ghost added = entry;
        self.reducers.push(entry);
        assert(self.reducers@.last() == added);
        assert(self.reducers@.drop_last() =~= old(self).reducers@);
        assert forall|n: Seq<char>| n != function@ implies #[trigger] self.builtin_reduce(n) == old(
            self,
        ).builtin_reduce(n) by {
            lemma_find_reduce_bound(old(self).reducers@, n);
        }
    }
}

} // verus!
