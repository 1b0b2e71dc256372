use super::expression::Expression;
use super::ids::is_captured;
use super::Id;
use crate::id::CountableId;
use vstd::prelude::*;

verus! {

/// A set of IDs, kept as one flag per ID number, since IDs are numbered
/// sequentially.
pub struct IdSet {
    flags: Vec<bool>,
}

impl View for IdSet {
    type V = Set<nat>;

    /// The numbers of the IDs in the set.
    closed spec fn view(&self) -> Set<nat> {
        Set::new(|index: nat| index < self.flags.len() && self.flags@[index as int])
    }
}

impl IdSet {
    /// The empty set.
    pub fn new() -> (result: Self)
        ensures
            result@ == Set::<nat>::empty(),
    {
        let result = IdSet { flags: Vec::new() };
        assert(result@ =~= Set::<nat>::empty());
        result
    }

    /// Whether the set holds an ID.
    pub fn contains(&self, id: Id) -> (result: bool)
        ensures
            result == self@.contains(id.spec_index()),
    {
        let index = id.to_usize();
        if index >= self.flags.len() {
            false
        } else {
            self.flags[index]
        }
    }

    /// Adds an ID.
    pub fn insert(&mut self, id: Id)
        ensures
            final(self)@ == old(self)@.insert(id.spec_index()),
    {
        let index = id.to_usize();
        let ghost before = self@;
        while self.flags.len() <= index
            invariant
                self@ == before,
                index as nat == id.spec_index(),
            decreases index + 1 - self.flags.len(),
        {
            let ghost shorter = self.flags@;
            self.flags.push(false);
            assert(self@ =~= Set::new(
                |i: nat| i < shorter.len() && shorter[i as int],
            ));
        }
        self.flags.set(index, true);
        assert(self@ =~= before.insert(id.spec_index()));
    }

    /// Takes an ID out.
    pub fn remove(&mut self, id: Id)
        ensures
            final(self)@ == old(self)@.remove(id.spec_index()),
    {
        let index = id.to_usize();
        if index >= self.flags.len() {
            assert(self@ =~= old(self)@.remove(id.spec_index()));
            return;
        }
        self.flags.set(index, false);
        assert(self@ =~= old(self)@.remove(id.spec_index()));
    }
}

/// What is known of the expressions of a body: which definitions and which
/// functions are deterministic, which are pure, and which definitions are
/// constant.
///
/// Running a deterministic expression twice gives the same result. A pure
/// one is deterministic and has no side effects, not even a panic, so it can
/// go where nothing refers to it. A constant one is pure and known at compile
/// time, and so is everything it captures.
pub struct PurenessInsights {
    deterministic_definitions: IdSet,
    deterministic_functions: IdSet,
    pure_definitions: IdSet,
    pure_functions: IdSet,
    const_definitions: IdSet,
}

/// Whether running an expression twice gives the same result.
pub open spec fn definition_deterministic(
    expression: Expression,
    deterministic_functions: Set<nat>,
) -> bool {
    match expression {
        Expression::Int(_) | Expression::Text(_) | Expression::Tag { .. } | Expression::Builtin(
            _,
        ) | Expression::List(_) | Expression::Struct(_) | Expression::Reference(_)
        | Expression::HirId(_) | Expression::Function { .. } | Expression::Parameter
        | Expression::Panic { .. } => true,
        Expression::Call { function, .. } => deterministic_functions.contains(
            function.spec_index(),
        ),
        _ => false,
    }
}

/// Whether running an expression twice gives the same result and it has no
/// side effects, not even a panic.
pub open spec fn definition_pure(expression: Expression, pure_functions: Set<nat>) -> bool {
    match expression {
        Expression::Int(_) | Expression::Text(_) | Expression::Tag { .. } | Expression::Builtin(
            _,
        ) | Expression::List(_) | Expression::Struct(_) | Expression::Reference(_)
        | Expression::HirId(_) | Expression::Function { .. } | Expression::Parameter => true,
        Expression::Call { function, .. } => pure_functions.contains(function.spec_index()),
        _ => false,
    }
}

/// Whether calling what an expression defines is deterministic: a builtin
/// other than running a function, `IfElse` and printing; a function whose
/// body is deterministic throughout; and a value, since calling one always
/// panics.
pub open spec fn function_deterministic(
    expression: Expression,
    deterministic_functions: Set<nat>,
) -> bool {
    match expression {
        Expression::Builtin(builtin) => builtin.spec_is_pure(),
        Expression::Function { body, .. } => forall|index: int|
            0 <= index < body.expressions@.len() ==> definition_deterministic(
                #[trigger] body.expressions@[index].1,
                deterministic_functions,
            ),
        Expression::Tag { .. } | Expression::Int(_) | Expression::Text(_) | Expression::List(_)
        | Expression::Struct(_) | Expression::HirId(_) | Expression::UseModule { .. }
        | Expression::Panic { .. } => true,
        _ => false,
    }
}

/// Whether calling what an expression defines is pure: a builtin other than
/// running a function, `IfElse` and printing; a function whose body is pure
/// throughout; and a tag without a value.
pub open spec fn function_pure(expression: Expression, pure_functions: Set<nat>) -> bool {
    match expression {
        Expression::Builtin(builtin) => builtin.spec_is_pure(),
        Expression::Function { body, .. } => forall|index: int|
            0 <= index < body.expressions@.len() ==> definition_pure(
                #[trigger] body.expressions@[index].1,
                pure_functions,
            ),
        Expression::Tag { value, .. } => value is None,
        _ => false,
    }
}

/// Whether an expression is pure and everything it captures is constant.
pub open spec fn definition_const(
    expression: Expression,
    pure_functions: Set<nat>,
    const_definitions: Set<nat>,
) -> bool {
    &&& definition_pure(expression, pure_functions)
    &&& forall|id: Id| #[trigger]
        is_captured(expression, id) ==> const_definitions.contains(id.spec_index())
}

impl PurenessInsights {
    /// The numbers of the definitions known to be deterministic.
    pub closed spec fn spec_deterministic_definitions(&self) -> Set<nat> {
        self.deterministic_definitions@
    }

    /// The numbers of the functions known to be deterministic.
    pub closed spec fn spec_deterministic_functions(&self) -> Set<nat> {
        self.deterministic_functions@
    }

    /// The numbers of the definitions known to be pure.
    pub closed spec fn spec_pure_definitions(&self) -> Set<nat> {
        self.pure_definitions@
    }

    /// The numbers of the functions known to be pure.
    pub closed spec fn spec_pure_functions(&self) -> Set<nat> {
        self.pure_functions@
    }

    /// The numbers of the definitions known to be constant.
    pub closed spec fn spec_const_definitions(&self) -> Set<nat> {
        self.const_definitions@
    }

    /// The definitions known to be pure.
    pub fn pure_definitions(&self) -> (result: &IdSet)
        ensures
            result@ == self.spec_pure_definitions(),
    {
        &self.pure_definitions
    }

    /// Nothing known.
    pub fn new() -> (result: Self)
        ensures
            result.spec_deterministic_definitions() == Set::<nat>::empty(),
            result.spec_deterministic_functions() == Set::<nat>::empty(),
            result.spec_pure_definitions() == Set::<nat>::empty(),
            result.spec_pure_functions() == Set::<nat>::empty(),
            result.spec_const_definitions() == Set::<nat>::empty(),
    {
        PurenessInsights {
            deterministic_definitions: IdSet::new(),
            deterministic_functions: IdSet::new(),
            pure_definitions: IdSet::new(),
            pure_functions: IdSet::new(),
            const_definitions: IdSet::new(),
        }
    }

    pub fn is_definition_deterministic(&self, expression: &Expression) -> (result: bool)
        ensures
            result == definition_deterministic(*expression, self.spec_deterministic_functions()),
    {
        match expression {
            Expression::Int(_) | Expression::Text(_) | Expression::Tag { .. }
            | Expression::Builtin(_) | Expression::List(_) | Expression::Struct(_)
            | Expression::Reference(_) | Expression::HirId(_) | Expression::Function { .. }
            | Expression::Parameter | Expression::Panic { .. } => true,
            Expression::Call { function, .. } => self.deterministic_functions.contains(*function),
            _ => false,
        }
    }

    pub fn is_definition_pure(&self, expression: &Expression) -> (result: bool)
        ensures
            result == definition_pure(*expression, self.spec_pure_functions()),
    {
        match expression {
            Expression::Int(_) | Expression::Text(_) | Expression::Tag { .. }
            | Expression::Builtin(_) | Expression::List(_) | Expression::Struct(_)
            | Expression::Reference(_) | Expression::HirId(_) | Expression::Function { .. }
            | Expression::Parameter => true,
            Expression::Call { function, .. } => self.pure_functions.contains(*function),
            _ => false,
        }
    }

    #[verifier::loop_isolation(false)]
    pub fn is_function_deterministic(&self, expression: &Expression) -> (result: bool)
        ensures
            result == function_deterministic(*expression, self.spec_deterministic_functions()),
    {
        match expression {
            Expression::Builtin(builtin) => builtin.is_pure(),
            Expression::Function { body, .. } => {
                let mut index: usize = 0;
                while index < body.expressions.len()
                    invariant
                        index <= body.expressions.len(),
                        forall|k: int|
                            0 <= k < index ==> definition_deterministic(
                                #[trigger] body.expressions@[k].1,
                                self.spec_deterministic_functions(),
                            ),
                    decreases body.expressions.len() - index,
                {
                    if !self.is_definition_deterministic(&body.expressions[index].1) {
                        assert(!definition_deterministic(
                            body.expressions@[index as int].1,
                            self.spec_deterministic_functions(),
                        ));
                        return false;
                    }
                    index = index + 1;
                }
                true
            },
            Expression::Tag { .. } | Expression::Int(_) | Expression::Text(_)
            | Expression::List(_) | Expression::Struct(_) | Expression::HirId(_)
            | Expression::UseModule { .. } | Expression::Panic { .. } => true,
            _ => false,
        }
    }

    #[verifier::loop_isolation(false)]
    pub fn is_function_pure(&self, expression: &Expression) -> (result: bool)
        ensures
            result == function_pure(*expression, self.spec_pure_functions()),
    {
        match expression {
            Expression::Builtin(builtin) => builtin.is_pure(),
            Expression::Function { body, .. } => {
                let mut index: usize = 0;
                while index < body.expressions.len()
                    invariant
                        index <= body.expressions.len(),
                        forall|k: int|
                            0 <= k < index ==> definition_pure(
                                #[trigger] body.expressions@[k].1,
                                self.spec_pure_functions(),
                            ),
                    decreases body.expressions.len() - index,
                {
                    if !self.is_definition_pure(&body.expressions[index].1) {
                        assert(!definition_pure(
                            body.expressions@[index as int].1,
                            self.spec_pure_functions(),
                        ));
                        return false;
                    }
                    index = index + 1;
                }
                true
            },
            Expression::Tag { value, .. } => value.is_none(),
            _ => false,
        }
    }

    pub fn is_definition_const(&self, expression: &Expression) -> (result: bool)
        ensures
            result == definition_const(
                *expression,
                self.spec_pure_functions(),
                self.spec_const_definitions(),
            ),
    {
        if !self.is_definition_pure(expression) {
            return false;
        }
        let captured = expression.captured_ids();
        let mut index: usize = 0;
        while index < captured.len()
            invariant
                index <= captured.len(),
                forall|id: Id| captured@.contains(id) <==> is_captured(*expression, id),
                forall|k: int|
                    0 <= k < index ==> self.spec_const_definitions().contains(
                        (#[trigger] captured@[k]).spec_index(),
                    ),
            decreases captured.len() - index,
        {
            if !self.const_definitions.contains(captured[index]) {
                assert(is_captured(*expression, captured@[index as int]));
                return false;
            }
            index = index + 1;
        }
        assert forall|id: Id| #[trigger]
            is_captured(*expression, id) implies self.spec_const_definitions().contains(
            id.spec_index(),
        ) by {
            assert(captured@.contains(id));
            let k = choose|k: int| 0 <= k < captured@.len() && captured@[k] == id;
            assert(self.spec_const_definitions().contains(captured@[k].spec_index()));
        }
        true
    }

    /// Records what holds of an expression once it is optimized.
    pub fn visit_optimized(&mut self, id: Id, expression: &Expression)
        ensures
            final(self).spec_deterministic_definitions() == (if definition_deterministic(
                *expression,
                old(self).spec_deterministic_functions(),
            ) {
                old(self).spec_deterministic_definitions().insert(id.spec_index())
            } else {
                old(self).spec_deterministic_definitions()
            }),
            final(self).spec_deterministic_functions() == (if function_deterministic(
                *expression,
                old(self).spec_deterministic_functions(),
            ) {
                old(self).spec_deterministic_functions().insert(id.spec_index())
            } else {
                old(self).spec_deterministic_functions()
            }),
            final(self).spec_pure_definitions() == (if definition_pure(
                *expression,
                old(self).spec_pure_functions(),
            ) {
                old(self).spec_pure_definitions().insert(id.spec_index())
            } else {
                old(self).spec_pure_definitions()
            }),
            final(self).spec_pure_functions() == (if function_pure(
                *expression,
                old(self).spec_pure_functions(),
            ) {
                old(self).spec_pure_functions().insert(id.spec_index())
            } else {
                old(self).spec_pure_functions()
            }),
            final(self).spec_const_definitions() == (if definition_const(
                *expression,
                final(self).spec_pure_functions(),
                old(self).spec_const_definitions(),
            ) {
                old(self).spec_const_definitions().insert(id.spec_index())
            } else {
                old(self).spec_const_definitions()
            }),
    {
        if self.is_definition_deterministic(expression) {
            self.deterministic_definitions.insert(id);
        }
        if self.is_function_deterministic(expression) {
            self.deterministic_functions.insert(id);
        }
        if self.is_definition_pure(expression) {
            self.pure_definitions.insert(id);
        }
        if self.is_function_pure(expression) {
            self.pure_functions.insert(id);
        }
        if self.is_definition_const(expression) {
            self.const_definitions.insert(id);
        }
    }

    /// Records that a function's parameters, its responsible one among them,
    /// are pure definitions.
    pub fn enter_function(&mut self, parameters: &Vec<Id>, responsible_parameter: Id)
        ensures
            final(self).spec_deterministic_definitions() == old(self).spec_deterministic_definitions(),
            final(self).spec_deterministic_functions() == old(self).spec_deterministic_functions(),
            final(self).spec_pure_definitions() == old(self).spec_pure_definitions() + Set::new(
                |index: nat|
                    exists|k: int|
                        0 <= k < parameters.len() && (#[trigger] parameters@[k]).spec_index()
                            == index,
            ).insert(responsible_parameter.spec_index()),
            final(self).spec_pure_functions() == old(self).spec_pure_functions(),
            final(self).spec_const_definitions() == old(self).spec_const_definitions(),
    {
        let ghost old_pure = self.pure_definitions@;
        let mut index: usize = 0;
        while index < parameters.len()
            invariant
                index <= parameters.len(),
                self.deterministic_definitions@ == old(self).spec_deterministic_definitions(),
                self.deterministic_functions@ == old(self).spec_deterministic_functions(),
                self.pure_functions@ == old(self).spec_pure_functions(),
                self.const_definitions@ == old(self).spec_const_definitions(),
                old_pure == old(self).spec_pure_definitions(),
                self.pure_definitions@ == old_pure + Set::new(
                    |i: nat|
                        exists|k: int|
                            0 <= k < index && (#[trigger] parameters@[k]).spec_index() == i,
                ),
            decreases parameters.len() - index,
        {
            self.pure_definitions.insert(parameters[index]);
            index = index + 1;
            assert(self.pure_definitions@ =~= old_pure + Set::new(
                |i: nat|
                    exists|k: int|
                        0 <= k < index && (#[trigger] parameters@[k]).spec_index() == i,
            )) by {
                assert forall|i: nat|
                    (exists|k: int|
                        0 <= k < index && (#[trigger] parameters@[k]).spec_index() == i)
                        implies self.pure_definitions@.contains(i) by {
                    let k = choose|k: int|
                        0 <= k < index && (#[trigger] parameters@[k]).spec_index() == i;
                    if k < index - 1 {
                        assert(exists|j: int|
                            0 <= j < index - 1 && (#[trigger] parameters@[j]).spec_index()
                                == i);
                    }
                }
            }
        }
        self.pure_definitions.insert(responsible_parameter);
    }

    /// Forgets everything about an ID.
    pub fn on_remove(&mut self, id: Id)
        ensures
            final(self).spec_deterministic_definitions() == old(
                self,
            ).spec_deterministic_definitions().remove(id.spec_index()),
            final(self).spec_deterministic_functions() == old(
                self,
            ).spec_deterministic_functions().remove(id.spec_index()),
            final(self).spec_pure_definitions() == old(self).spec_pure_definitions().remove(
                id.spec_index(),
            ),
            final(self).spec_pure_functions() == old(self).spec_pure_functions().remove(id.spec_index()),
            final(self).spec_const_definitions() == old(self).spec_const_definitions().remove(
                id.spec_index(),
            ),
    {
        self.deterministic_definitions.remove(id);
        self.deterministic_functions.remove(id);
        self.pure_definitions.remove(id);
        self.pure_functions.remove(id);
        self.const_definitions.remove(id);
    }
}

} // verus!
