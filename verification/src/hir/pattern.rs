use crate::ast_tree::CollectErrors;
use crate::error::CompilerError;
use super::PatternIdentifierId;
use num_bigint::BigUint;
use vstd::prelude::*;

verus! {

/// A pattern of the high-level intermediate representation.
#[derive(Debug, PartialEq, Eq)]
pub enum Pattern {
    NewIdentifier(PatternIdentifierId),
    Int(BigUint),
    Text(String),
    Symbol(String),
    List(Vec<Pattern>),
    /// Keys may not contain `NewIdentifier`.
    Struct(Vec<(Pattern, Pattern)>),
    Or(Vec<Pattern>),
    Error { child: Option<Box<Pattern>>, errors: Vec<CompilerError> },
}

impl Pattern {
    /// Whether the pattern binds an identifier. Of the alternatives of an
    /// or-pattern, the first one tells; struct keys don't count.
    pub open spec fn binds_identifiers(self) -> bool
        decreases self,
    {
        match self {
            Pattern::NewIdentifier(_) => true,
            Pattern::List(items) => any_binds(items@),
            Pattern::Struct(fields) => any_value_binds(fields@),
            Pattern::Or(alternatives) => alternatives@.len() > 0
                && alternatives@[0].binds_identifiers(),
            _ => false,
        }
    }

    /// The number of identifiers that the pattern binds, struct keys
    /// included. Of the alternatives of an or-pattern, the first one tells.
    pub open spec fn identifier_count(self) -> nat
        decreases self,
    {
        match self {
            Pattern::NewIdentifier(_) => 1,
            Pattern::List(items) => count_all(items@),
            Pattern::Struct(fields) => count_fields(fields@),
            Pattern::Or(alternatives) => if alternatives@.len() > 0 {
                alternatives@[0].identifier_count()
            } else {
                0
            },
            _ => 0,
        }
    }

    /// The identifiers that the pattern binds, in order, struct keys left
    /// out. Of the alternatives of an or-pattern, the first one tells.
    pub open spec fn identifiers(self) -> Seq<PatternIdentifierId>
        decreases self,
    {
        match self {
            Pattern::NewIdentifier(id) => seq![id],
            Pattern::List(items) => identifiers_all(items@),
            Pattern::Struct(fields) => value_identifiers(fields@),
            Pattern::Or(alternatives) => if alternatives@.len() > 0 {
                alternatives@[0].identifiers()
            } else {
                Seq::empty()
            },
            _ => Seq::empty(),
        }
    }

    /// Whether no struct key in the pattern binds an identifier, as the
    /// patterns that the compiler builds have it.
    pub open spec fn keys_bind_nothing(self) -> bool
        decreases self,
    {
        match self {
            Pattern::List(items) => all_keys_bind_nothing(items@),
            Pattern::Struct(fields) => fields_keys_bind_nothing(fields@),
            Pattern::Or(alternatives) => all_keys_bind_nothing(alternatives@),
            Pattern::Error { child: Some(child), .. } => child.keys_bind_nothing(),
            _ => true,
        }
    }

    /// Whether looking for a bound identifier meets no or-pattern without
    /// alternatives: items of a list are looked at until one binds one.
    pub open spec fn binding_is_known(self) -> bool
        decreases self,
    {
        match self {
            Pattern::List(items) => binding_known_all(items@),
            Pattern::Struct(fields) => value_binding_known(fields@),
            Pattern::Or(alternatives) => alternatives@.len() > 0
                && alternatives@[0].binding_is_known(),
            _ => true,
        }
    }

    /// Whether counting the identifiers meets no or-pattern without
    /// alternatives.
    pub open spec fn count_is_known(self) -> bool
        decreases self,
    {
        match self {
            Pattern::List(items) => count_known_all(items@),
            Pattern::Struct(fields) => count_known_fields(fields@),
            Pattern::Or(alternatives) => alternatives@.len() > 0
                && alternatives@[0].count_is_known(),
            _ => true,
        }
    }

    /// Whether gathering the identifiers meets no or-pattern without
    /// alternatives.
    pub open spec fn identifiers_are_known(self) -> bool
        decreases self,
    {
        match self {
            Pattern::List(items) => identifiers_known_all(items@),
            Pattern::Struct(fields) => value_identifiers_known(fields@),
            Pattern::Or(alternatives) => alternatives@.len() > 0
                && alternatives@[0].identifiers_are_known(),
            _ => true,
        }
    }

    /// The errors in the pattern, in order.
    pub open spec fn errors(self) -> Seq<CompilerError>
        decreases self,
    {
        match self {
            Pattern::List(items) => errors_all(items@),
            Pattern::Struct(fields) => field_errors(fields@),
            Pattern::Or(alternatives) => errors_all(alternatives@),
            Pattern::Error { errors, .. } => errors@,
            _ => Seq::empty(),
        }
    }
}

/// Whether one of the patterns binds an identifier.
pub open spec fn any_binds(patterns: Seq<Pattern>) -> bool
    decreases patterns,
{
    if patterns.len() == 0 {
        false
    } else {
        any_binds(patterns.drop_last()) || patterns.last().binds_identifiers()
    }
}

/// Whether one of the values of the fields binds an identifier.
pub open spec fn any_value_binds(fields: Seq<(Pattern, Pattern)>) -> bool
    decreases fields,
{
    if fields.len() == 0 {
        false
    } else {
        any_value_binds(fields.drop_last()) || fields.last().1.binds_identifiers()
    }
}

/// The number of identifiers that the patterns bind together.
pub open spec fn count_all(patterns: Seq<Pattern>) -> nat
    decreases patterns,
{
    if patterns.len() == 0 {
        0
    } else {
        count_all(patterns.drop_last()) + patterns.last().identifier_count()
    }
}

/// The number of identifiers that the keys and values of the fields bind
/// together.
pub open spec fn count_fields(fields: Seq<(Pattern, Pattern)>) -> nat
    decreases fields,
{
    if fields.len() == 0 {
        0
    } else {
        count_fields(fields.drop_last()) + fields.last().0.identifier_count()
            + fields.last().1.identifier_count()
    }
}

/// The identifiers that the patterns bind, in order.
pub open spec fn identifiers_all(patterns: Seq<Pattern>) -> Seq<PatternIdentifierId>
    decreases patterns,
{
    if patterns.len() == 0 {
        Seq::empty()
    } else {
        identifiers_all(patterns.drop_last()) + patterns.last().identifiers()
    }
}

/// The identifiers that the values of the fields bind, in order.
pub open spec fn value_identifiers(fields: Seq<(Pattern, Pattern)>) -> Seq<PatternIdentifierId>
    decreases fields,
{
    if fields.len() == 0 {
        Seq::empty()
    } else {
        value_identifiers(fields.drop_last()) + fields.last().1.identifiers()
    }
}

/// Whether no struct key in the patterns binds an identifier.
pub open spec fn all_keys_bind_nothing(patterns: Seq<Pattern>) -> bool
    decreases patterns,
{
    if patterns.len() == 0 {
        true
    } else {
        all_keys_bind_nothing(patterns.drop_last()) && patterns.last().keys_bind_nothing()
    }
}

/// Whether no key of the fields binds an identifier, and no struct key
/// below them either.
pub open spec fn fields_keys_bind_nothing(fields: Seq<(Pattern, Pattern)>) -> bool
    decreases fields,
{
    if fields.len() == 0 {
        true
    } else {
        &&& fields_keys_bind_nothing(fields.drop_last())
        &&& fields.last().0.identifier_count() == 0
        &&& fields.last().0.keys_bind_nothing()
        &&& fields.last().1.keys_bind_nothing()
    }
}

/// Whether looking at the patterns in order, up to the first that binds an
/// identifier, meets no or-pattern without alternatives.
pub open spec fn binding_known_all(patterns: Seq<Pattern>) -> bool
    decreases patterns,
{
    if patterns.len() == 0 {
        true
    } else {
        patterns[0].binding_is_known() && (patterns[0].binds_identifiers() || binding_known_all(
            patterns.drop_first(),
        ))
    }
}

/// Whether looking at the values of the fields in order, up to the first
/// that binds an identifier, meets no or-pattern without alternatives.
pub open spec fn value_binding_known(fields: Seq<(Pattern, Pattern)>) -> bool
    decreases fields,
{
    if fields.len() == 0 {
        true
    } else {
        fields[0].1.binding_is_known() && (fields[0].1.binds_identifiers() || value_binding_known(
            fields.drop_first(),
        ))
    }
}

/// Whether counting the identifiers of the patterns meets no or-pattern
/// without alternatives.
pub open spec fn count_known_all(patterns: Seq<Pattern>) -> bool
    decreases patterns,
{
    if patterns.len() == 0 {
        true
    } else {
        count_known_all(patterns.drop_last()) && patterns.last().count_is_known()
    }
}

/// Whether counting the identifiers of the fields meets no or-pattern
/// without alternatives.
pub open spec fn count_known_fields(fields: Seq<(Pattern, Pattern)>) -> bool
    decreases fields,
{
    if fields.len() == 0 {
        true
    } else {
        count_known_fields(fields.drop_last()) && fields.last().0.count_is_known()
            && fields.last().1.count_is_known()
    }
}

/// Whether gathering the identifiers of the patterns meets no or-pattern
/// without alternatives.
pub open spec fn identifiers_known_all(patterns: Seq<Pattern>) -> bool
    decreases patterns,
{
    if patterns.len() == 0 {
        true
    } else {
        identifiers_known_all(patterns.drop_last()) && patterns.last().identifiers_are_known()
    }
}

/// Whether gathering the identifiers of the values of the fields meets no
/// or-pattern without alternatives.
pub open spec fn value_identifiers_known(fields: Seq<(Pattern, Pattern)>) -> bool
    decreases fields,
{
    if fields.len() == 0 {
        true
    } else {
        value_identifiers_known(fields.drop_last()) && fields.last().1.identifiers_are_known()
    }
}

/// The errors in the patterns, in order.
pub open spec fn errors_all(patterns: Seq<Pattern>) -> Seq<CompilerError>
    decreases patterns,
{
    if patterns.len() == 0 {
        Seq::empty()
    } else {
        patterns[0].errors() + errors_all(patterns.drop_first())
    }
}

/// The errors in the fields, each key's before its value's.
pub open spec fn field_errors(fields: Seq<(Pattern, Pattern)>) -> Seq<CompilerError>
    decreases fields,
{
    if fields.len() == 0 {
        Seq::empty()
    } else {
        fields[0].0.errors() + fields[0].1.errors() + field_errors(fields.drop_first())
    }
}

/// A pattern in a sequence binds identifiers only where the sequence does.
proof fn lemma_any_binds_index(patterns: Seq<Pattern>, i: int)
    requires
        0 <= i < patterns.len(),
        patterns[i].binds_identifiers(),
    ensures
        any_binds(patterns),
    decreases patterns.len(),
{
    if i < patterns.len() - 1 {
        lemma_any_binds_index(patterns.drop_last(), i);
    }
}

/// A value in a sequence of fields binds identifiers only where the fields
/// do.
proof fn lemma_any_value_binds_index(fields: Seq<(Pattern, Pattern)>, i: int)
    requires
        0 <= i < fields.len(),
        fields[i].1.binds_identifiers(),
    ensures
        any_value_binds(fields),
    decreases fields.len(),
{
    if i < fields.len() - 1 {
        lemma_any_value_binds_index(fields.drop_last(), i);
    }
}

/// Where counting the identifiers of patterns is known, so is counting
/// those of each.
proof fn lemma_count_known_index(patterns: Seq<Pattern>, i: int)
    requires
        0 <= i < patterns.len(),
        count_known_all(patterns),
    ensures
        patterns[i].count_is_known(),
    decreases patterns.len(),
{
    if i < patterns.len() - 1 {
        lemma_count_known_index(patterns.drop_last(), i);
    }
}

/// Where counting the identifiers of fields is known, so is counting those
/// of each key and value.
proof fn lemma_count_known_field(fields: Seq<(Pattern, Pattern)>, i: int)
    requires
        0 <= i < fields.len(),
        count_known_fields(fields),
    ensures
        fields[i].0.count_is_known(),
        fields[i].1.count_is_known(),
    decreases fields.len(),
{
    if i < fields.len() - 1 {
        lemma_count_known_field(fields.drop_last(), i);
    }
}

/// Where gathering the identifiers of patterns is known, so is gathering
/// those of each.
proof fn lemma_identifiers_known_index(patterns: Seq<Pattern>, i: int)
    requires
        0 <= i < patterns.len(),
        identifiers_known_all(patterns),
    ensures
        patterns[i].identifiers_are_known(),
    decreases patterns.len(),
{
    if i < patterns.len() - 1 {
        lemma_identifiers_known_index(patterns.drop_last(), i);
    }
}

/// Where gathering the identifiers of the values of fields is known, so is
/// gathering those of each value.
proof fn lemma_value_identifiers_known_index(fields: Seq<(Pattern, Pattern)>, i: int)
    requires
        0 <= i < fields.len(),
        value_identifiers_known(fields),
    ensures
        fields[i].1.identifiers_are_known(),
    decreases fields.len(),
{
    if i < fields.len() - 1 {
        lemma_value_identifiers_known_index(fields.drop_last(), i);
    }
}

/// The identifiers of some of the first patterns are no more than those of
/// all.
proof fn lemma_count_all_prefix(patterns: Seq<Pattern>, i: int)
    requires
        0 <= i <= patterns.len(),
    ensures
        count_all(patterns.take(i)) <= count_all(patterns),
    decreases patterns.len(),
{
    if i < patterns.len() {
        lemma_count_all_prefix(patterns.drop_last(), i);
        assert(patterns.drop_last().take(i) =~= patterns.take(i));
    } else {
        assert(patterns.take(i) =~= patterns);
    }
}

/// The identifiers of some of the first fields are no more than those of
/// all.
proof fn lemma_count_fields_prefix(fields: Seq<(Pattern, Pattern)>, i: int)
    requires
        0 <= i <= fields.len(),
    ensures
        count_fields(fields.take(i)) <= count_fields(fields),
    decreases fields.len(),
{
    if i < fields.len() {
        lemma_count_fields_prefix(fields.drop_last(), i);
        assert(fields.drop_last().take(i) =~= fields.take(i));
    } else {
        assert(fields.take(i) =~= fields);
    }
}

impl Pattern {
    /// Whether the pattern binds an identifier. Of an or-pattern, the first
    /// alternative tells.
    pub fn contains_captured_identifiers(&self) -> (result: bool)
        requires
            self.binding_is_known(),
        ensures
            result == self.binds_identifiers(),
        decreases self,
    {
        match self {
            Pattern::NewIdentifier(_) => true,
            Pattern::Int(_) | Pattern::Text(_) | Pattern::Symbol(_) => false,
            Pattern::List(list) => {
                let mut i: usize = 0;
                proof {
                    assert(list@.take(0) =~= Seq::<Pattern>::empty());
                    assert(list@.skip(0) =~= list@);
                }
                while i < list.len()
                    invariant
                        *self == Pattern::List(*list),
                        i <= list.len(),
                        !any_binds(list@.take(i as int)),
                        binding_known_all(list@.skip(i as int)),
                    decreases list.len() - i,
                {
                    proof {
                        assert(list@.skip(i as int)[0] == list@[i as int]);
                        assert(list@.skip(i as int).drop_first() =~= list@.skip(i + 1));
                        assert(decreases_to!(*self => (*self)->List_0));
                        assert(decreases_to!(*list => list@));
                        assert(decreases_to!(list@ => list@[i as int]));
                        assert(decreases_to!(self => list@[i as int]));
                    }
                    if list[i].contains_captured_identifiers() {
                        proof {
                            lemma_any_binds_index(list@, i as int);
                        }
                        return true;
                    }
                    proof {
                        assert(list@.take(i + 1).drop_last() =~= list@.take(i as int));
                    }
                    i = i + 1;
                }
                proof {
                    assert(list@.take(list.len() as int) =~= list@);
                }
                false
            },
            Pattern::Struct(fields) => {
                let mut i: usize = 0;
                proof {
                    assert(fields@.take(0) =~= Seq::<(Pattern, Pattern)>::empty());
                    assert(fields@.skip(0) =~= fields@);
                }
                while i < fields.len()
                    invariant
                        *self == Pattern::Struct(*fields),
                        i <= fields.len(),
                        !any_value_binds(fields@.take(i as int)),
                        value_binding_known(fields@.skip(i as int)),
                    decreases fields.len() - i,
                {
                    proof {
                        assert(fields@.skip(i as int)[0] == fields@[i as int]);
                        assert(fields@.skip(i as int).drop_first() =~= fields@.skip(i + 1));
                        assert(decreases_to!(*self => (*self)->Struct_0));
                        assert(decreases_to!(*fields => fields@));
                        assert(decreases_to!(fields@ => fields@[i as int]));
                        assert(decreases_to!(fields@[i as int] => fields@[i as int].1));
                        assert(decreases_to!(self => fields@[i as int].1));
                    }
                    if fields[i].1.contains_captured_identifiers() {
                        proof {
                            lemma_any_value_binds_index(fields@, i as int);
                        }
                        return true;
                    }
                    proof {
                        assert(fields@.take(i + 1).drop_last() =~= fields@.take(i as int));
                    }
                    i = i + 1;
                }
                proof {
                    assert(fields@.take(fields.len() as int) =~= fields@);
                }
                false
            },
            Pattern::Or(alternatives) => {
                proof {
                    assert(decreases_to!(self => alternatives@[0]));
                }
                alternatives[0].contains_captured_identifiers()
            },
            Pattern::Error { .. } => false,
        }
    }

    /// The number of identifiers that the pattern binds, struct keys
    /// included. Of an or-pattern, the first alternative tells.
    pub fn captured_identifier_count(&self) -> (result: usize)
        requires
            self.count_is_known(),
            self.identifier_count() <= usize::MAX,
        ensures
            result == self.identifier_count(),
        decreases self,
    {
        match self {
            Pattern::NewIdentifier(_) => 1,
            Pattern::Int(_) | Pattern::Text(_) | Pattern::Symbol(_) => 0,
            Pattern::List(list) => {
                let mut count: usize = 0;
                let mut i: usize = 0;
                proof {
                    assert(list@.take(0) =~= Seq::<Pattern>::empty());
                }
                while i < list.len()
                    invariant
                        *self == Pattern::List(*list),
                        i <= list.len(),
                        count_known_all(list@),
                        count_all(list@) <= usize::MAX,
                        count == count_all(list@.take(i as int)),
                    decreases list.len() - i,
                {
                    proof {
                        lemma_count_known_index(list@, i as int);
                        assert(list@.take(i + 1).drop_last() =~= list@.take(i as int));
                        lemma_count_all_prefix(list@, i + 1);
                        assert(decreases_to!(*self => (*self)->List_0));
                        assert(decreases_to!(*list => list@));
                        assert(decreases_to!(list@ => list@[i as int]));
                        assert(decreases_to!(self => list@[i as int]));
                    }
                    count = count + list[i].captured_identifier_count();
                    i = i + 1;
                }
                proof {
                    assert(list@.take(list.len() as int) =~= list@);
                }
                count
            },
            Pattern::Struct(fields) => {
                let mut count: usize = 0;
                let mut i: usize = 0;
                proof {
                    assert(fields@.take(0) =~= Seq::<(Pattern, Pattern)>::empty());
                }
                while i < fields.len()
                    invariant
                        *self == Pattern::Struct(*fields),
                        i <= fields.len(),
                        count_known_fields(fields@),
                        count_fields(fields@) <= usize::MAX,
                        count == count_fields(fields@.take(i as int)),
                    decreases fields.len() - i,
                {
                    proof {
                        lemma_count_known_field(fields@, i as int);
                        assert(fields@.take(i + 1).drop_last() =~= fields@.take(i as int));
                        lemma_count_fields_prefix(fields@, i + 1);
                        assert(decreases_to!(*self => (*self)->Struct_0));
                        assert(decreases_to!(*fields => fields@));
                        assert(decreases_to!(fields@ => fields@[i as int]));
                        assert(decreases_to!(fields@[i as int] => fields@[i as int].0));
                        assert(decreases_to!(self => fields@[i as int].0));
                        assert(decreases_to!(*self => (*self)->Struct_0));
                        assert(decreases_to!(*fields => fields@));
                        assert(decreases_to!(fields@ => fields@[i as int]));
                        assert(decreases_to!(fields@[i as int] => fields@[i as int].1));
                        assert(decreases_to!(self => fields@[i as int].1));
                    }
                    let key_count = fields[i].0.captured_identifier_count();
                    let value_count = fields[i].1.captured_identifier_count();
                    count = count + key_count + value_count;
                    i = i + 1;
                }
                proof {
                    assert(fields@.take(fields.len() as int) =~= fields@);
                }
                count
            },
            Pattern::Or(alternatives) => {
                proof {
                    assert(decreases_to!(self => alternatives@[0]));
                }
                alternatives[0].captured_identifier_count()
            },
            Pattern::Error { .. } => 0,
        }
    }

    /// The identifiers that the pattern binds, in order: their positions are
    /// those of the captured values in the result of a match.
    pub fn captured_identifiers(&self) -> (result: Vec<PatternIdentifierId>)
        requires
            self.identifiers_are_known(),
        ensures
            result@ == self.identifiers(),
    {
        let mut ids: Vec<PatternIdentifierId> = Vec::new();
        self.collect_captured_identifiers(&mut ids);
        proof {
            assert(Seq::<PatternIdentifierId>::empty() + self.identifiers() =~= self.identifiers());
        }
        ids
    }

    /// Appends the identifiers that the pattern binds, in order.
    fn collect_captured_identifiers(&self, ids: &mut Vec<PatternIdentifierId>)
        requires
            self.identifiers_are_known(),
        ensures
            final(ids)@ == old(ids)@ + self.identifiers(),
        decreases self,
    {
        let ghost start = ids@;
        match self {
            Pattern::NewIdentifier(id) => {
                ids.push(*id);
                proof {
                    assert(ids@ =~= start + seq![*id]);
                }
            },
            Pattern::Int(_) | Pattern::Text(_) | Pattern::Symbol(_) => {
                proof {
                    assert(ids@ =~= start + Seq::<PatternIdentifierId>::empty());
                }
            },
            Pattern::List(list) => {
                let mut i: usize = 0;
                proof {
                    assert(list@.take(0) =~= Seq::<Pattern>::empty());
                    assert(ids@ =~= start + identifiers_all(list@.take(0)));
                }
                while i < list.len()
                    invariant
                        *self == Pattern::List(*list),
                        i <= list.len(),
                        identifiers_known_all(list@),
                        ids@ == start + identifiers_all(list@.take(i as int)),
                    decreases list.len() - i,
                {
                    proof {
                        lemma_identifiers_known_index(list@, i as int);
                        assert(list@.take(i + 1).drop_last() =~= list@.take(i as int));
                        assert(decreases_to!(*self => (*self)->List_0));
                        assert(decreases_to!(*list => list@));
                        assert(decreases_to!(list@ => list@[i as int]));
                        assert(decreases_to!(self => list@[i as int]));
                    }
                    let ghost before = ids@;
                    list[i].collect_captured_identifiers(ids);
                    proof {
                        assert(ids@ =~= start + identifiers_all(list@.take(i + 1)));
                    }
                    i = i + 1;
                }
                proof {
                    assert(list@.take(list.len() as int) =~= list@);
                }
            },
            Pattern::Struct(fields) => {
                let mut i: usize = 0;
                proof {
                    assert(fields@.take(0) =~= Seq::<(Pattern, Pattern)>::empty());
                    assert(ids@ =~= start + value_identifiers(fields@.take(0)));
                }
                while i < fields.len()
                    invariant
                        *self == Pattern::Struct(*fields),
                        i <= fields.len(),
                        value_identifiers_known(fields@),
                        ids@ == start + value_identifiers(fields@.take(i as int)),
                    decreases fields.len() - i,
                {
                    proof {
                        lemma_value_identifiers_known_index(fields@, i as int);
                        assert(fields@.take(i + 1).drop_last() =~= fields@.take(i as int));
                        assert(decreases_to!(*self => (*self)->Struct_0));
                        assert(decreases_to!(*fields => fields@));
                        assert(decreases_to!(fields@ => fields@[i as int]));
                        assert(decreases_to!(fields@[i as int] => fields@[i as int].1));
                        assert(decreases_to!(self => fields@[i as int].1));
                    }
                    fields[i].1.collect_captured_identifiers(ids);
                    proof {
                        assert(ids@ =~= start + value_identifiers(fields@.take(i + 1)));
                    }
                    i = i + 1;
                }
                proof {
                    assert(fields@.take(fields.len() as int) =~= fields@);
                }
            },
            Pattern::Or(alternatives) => {
                proof {
                    assert(decreases_to!(self => alternatives@[0]));
                }
                alternatives[0].collect_captured_identifiers(ids);
            },
            Pattern::Error { .. } => {
                proof {
                    assert(ids@ =~= start + Seq::<PatternIdentifierId>::empty());
                }
            },
        }
    }
}

impl CollectErrors for Pattern {
    open spec fn error_list(self) -> Seq<CompilerError> {
        self.errors()
    }

    fn collect_errors(self, errors: &mut Vec<CompilerError>) {
        collect_pattern_errors(self, errors);
    }
}

/// Appends the errors in a pattern, in order.
fn collect_pattern_errors(pattern: Pattern, errors: &mut Vec<CompilerError>)
    ensures
        final(errors)@ == old(errors)@ + pattern.errors(),
    decreases pattern,
{
    let ghost start = errors@;
    match pattern {
        Pattern::List(items) => collect_errors_all(items, errors),
        Pattern::Struct(fields) => collect_field_errors(fields, errors),
        Pattern::Or(alternatives) => collect_errors_all(alternatives, errors),
        Pattern::Error { errors: found, .. } => {
            let mut found = found;
            errors.append(&mut found);
        },
        _ => {
            assert(errors@ =~= start + Seq::<CompilerError>::empty());
        },
    }
}

/// Appends the errors in patterns, in order.
fn collect_errors_all(patterns: Vec<Pattern>, errors: &mut Vec<CompilerError>)
    ensures
        final(errors)@ == old(errors)@ + errors_all(patterns@),
    decreases patterns,
{
    let ghost start = errors@;
    let ghost all = patterns@;
    let mut rest = patterns;
    let ghost mut done: int = 0;
    assert(all.skip(0) =~= all);
    while rest.len() > 0
        invariant
            all == patterns@,
            0 <= done <= all.len(),
            rest@ == all.skip(done),
            start + errors_all(all) == errors@ + errors_all(rest@),
        decreases rest.len(),
    {
        let ghost before = rest@;
        let pattern = rest.remove(0);
        proof {
            assert(before.drop_first() =~= rest@);
            assert(pattern == all[done]);
            assert(decreases_to!(patterns => patterns@[done]));
        }
        let ghost collected = errors@;
        collect_pattern_errors(pattern, errors);
        proof {
            assert(collected + (pattern.errors() + errors_all(rest@)) =~= collected
                + pattern.errors() + errors_all(rest@));
            assert(all.skip(done + 1) =~= rest@);
            done = done + 1;
        }
    }
    assert(errors_all(rest@) =~= Seq::<CompilerError>::empty());
    assert(errors@ + Seq::<CompilerError>::empty() =~= errors@);
}

/// Appends the errors in the fields of a struct pattern, each key's before
/// its value's.
fn collect_field_errors(fields: Vec<(Pattern, Pattern)>, errors: &mut Vec<CompilerError>)
    ensures
        final(errors)@ == old(errors)@ + field_errors(fields@),
    decreases fields,
{
    let ghost start = errors@;
    let ghost all = fields@;
    let mut rest = fields;
    let ghost mut done: int = 0;
    assert(all.skip(0) =~= all);
    while rest.len() > 0
        invariant
            all == fields@,
            0 <= done <= all.len(),
            rest@ == all.skip(done),
            start + field_errors(all) == errors@ + field_errors(rest@),
        decreases rest.len(),
    {
        let ghost before = rest@;
        let (key, value) = rest.remove(0);
        proof {
            assert(before.drop_first() =~= rest@);
            assert((key, value) == all[done]);
            assert(decreases_to!(fields => fields@[done]));
            assert(decreases_to!(fields@[done] => fields@[done].0));
            assert(decreases_to!(fields@[done] => fields@[done].1));
        }
        let ghost collected = errors@;
        collect_pattern_errors(key, errors);
        collect_pattern_errors(value, errors);
        proof {
            assert(collected + (key.errors() + value.errors() + field_errors(rest@))
                =~= collected + key.errors() + value.errors() + field_errors(rest@));
            assert(all.skip(done + 1) =~= rest@);
            done = done + 1;
        }
    }
    assert(field_errors(rest@) =~= Seq::<CompilerError>::empty());
    assert(errors@ + Seq::<CompilerError>::empty() =~= errors@);
}

/// Where no struct key in the patterns binds an identifier, none in any of
/// them does.
proof fn lemma_keys_bind_nothing_index(patterns: Seq<Pattern>, i: int)
    requires
        0 <= i < patterns.len(),
        all_keys_bind_nothing(patterns),
    ensures
        patterns[i].keys_bind_nothing(),
    decreases patterns.len(),
{
    if i < patterns.len() - 1 {
        lemma_keys_bind_nothing_index(patterns.drop_last(), i);
    }
}

/// Where no struct key binds an identifier, a pattern gives as many
/// identifiers as it counts, and it binds identifiers exactly where it
/// counts any.
pub proof fn lemma_identifiers_match_count(pattern: Pattern)
    requires
        pattern.keys_bind_nothing(),
    ensures
        pattern.identifiers().len() == pattern.identifier_count(),
        pattern.binds_identifiers() <==> pattern.identifier_count() > 0,
    decreases pattern,
{
    match pattern {
        Pattern::List(items) => lemma_identifiers_match_count_all(items@),
        Pattern::Struct(fields) => lemma_identifiers_match_count_fields(fields@),
        Pattern::Or(alternatives) => {
            if alternatives@.len() > 0 {
                lemma_keys_bind_nothing_index(alternatives@, 0);
                lemma_identifiers_match_count(alternatives@[0]);
            }
        },
        _ => {},
    }
}

/// Where no struct key binds an identifier, patterns give as many
/// identifiers as they count, and one of them binds identifiers exactly
/// where they count any.
pub proof fn lemma_identifiers_match_count_all(patterns: Seq<Pattern>)
    requires
        all_keys_bind_nothing(patterns),
    ensures
        identifiers_all(patterns).len() == count_all(patterns),
        any_binds(patterns) <==> count_all(patterns) > 0,
    decreases patterns,
{
    if patterns.len() > 0 {
        lemma_identifiers_match_count_all(patterns.drop_last());
        lemma_identifiers_match_count(patterns.last());
    }
}

/// Where no struct key binds an identifier, the values of fields give as
/// many identifiers as the fields count, and one of them binds identifiers
/// exactly where the fields count any.
pub proof fn lemma_identifiers_match_count_fields(fields: Seq<(Pattern, Pattern)>)
    requires
        fields_keys_bind_nothing(fields),
    ensures
        value_identifiers(fields).len() == count_fields(fields),
        any_value_binds(fields) <==> count_fields(fields) > 0,
    decreases fields,
{
    if fields.len() > 0 {
        lemma_identifiers_match_count_fields(fields.drop_last());
        lemma_identifiers_match_count(fields.last().1);
    }
}

} // verus!
