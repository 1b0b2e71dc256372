use crate::ast::{AstString, Id, IdView, Identifier, Symbol, TextPart};
use crate::error::CompilerError;
use num_bigint::BigUint;
use vstd::prelude::*;

verus! {

/// A node of the abstract syntax tree.
#[derive(Debug, PartialEq, Eq, Hash)]
pub struct Ast {
    pub id: Id,
    pub kind: AstKind,
}

/// What a node of the abstract syntax tree is.
#[derive(Debug, PartialEq, Eq, Hash)]
pub enum AstKind {
    Int(Int),
    Text(Text),
    TextPart(TextPart),
    Identifier(Identifier),
    Symbol(Symbol),
    List(List),
    Struct(Struct),
    StructAccess(StructAccess),
    Function(Function),
    Call(Call),
    Assignment(Assignment),
    Match(Match),
    MatchCase(MatchCase),
    OrPattern(OrPattern),
    Error { errors: Vec<CompilerError> },
}

/// An integer literal.
#[derive(Debug, PartialEq, Eq, Hash)]
pub struct Int(pub BigUint);

/// A text literal, made of text parts and interpolated expressions.
#[derive(Debug, PartialEq, Eq, Hash)]
pub struct Text(pub Vec<Ast>);

/// A list literal.
#[derive(Debug, PartialEq, Eq, Hash)]
pub struct List(pub Vec<Ast>);

/// A struct literal: values, each with a key or without one.
#[derive(Debug, PartialEq, Eq, Hash)]
pub struct Struct {
    pub fields: Vec<(Option<Ast>, Ast)>,
}

/// Access to the field of a struct by a key.
#[derive(Debug, PartialEq, Eq, Hash)]
pub struct StructAccess {
    pub struct_: Box<Ast>,
    pub key: AstString,
}

/// A function: its parameters and its body.
#[derive(Debug, PartialEq, Eq, Hash)]
pub struct Function {
    pub parameters: Vec<Ast>,
    pub body: Vec<Ast>,
    pub fuzzable: bool,
}

/// A call of a function with arguments.
#[derive(Debug, PartialEq, Eq, Hash)]
pub struct Call {
    pub receiver: Box<Ast>,
    pub arguments: Vec<Ast>,
    pub is_from_pipe: bool,
}

/// An assignment, which may be public.
#[derive(Debug, PartialEq, Eq, Hash)]
pub struct Assignment {
    pub is_public: bool,
    pub body: AssignmentBody,
}

/// What an assignment defines: a named function, or a pattern bound to the
/// value of a body.
#[derive(Debug, PartialEq, Eq, Hash)]
pub enum AssignmentBody {
    Function { name: AstString, function: Function },
    Body { pattern: Box<Ast>, body: Vec<Ast> },
}

/// A match of an expression against cases.
#[derive(Debug, PartialEq, Eq, Hash)]
pub struct Match {
    pub expression: Box<Ast>,
    pub cases: Vec<Ast>,
}

/// A case of a match: a pattern and the body that runs where it matches.
#[derive(Debug, PartialEq, Eq, Hash)]
pub struct MatchCase {
    pub pattern: Box<Ast>,
    pub body: Vec<Ast>,
}

/// Patterns of which any may match.
#[derive(Debug, PartialEq, Eq, Hash)]
pub struct OrPattern(pub Vec<Ast>);

impl Ast {
    /// The nodes that `find` looks at, in the order it looks at them: this
    /// node, then the nodes below it. Texts, parameters and the receiver's
    /// key of a struct access are not looked into.
    pub open spec fn searched_nodes(self) -> Seq<Ast>
        decreases self,
    {
        seq![self] + match self.kind {
            AstKind::List(List(items)) => searched_nodes_seq(items@),
            AstKind::Struct(Struct { fields }) => searched_fields(fields@),
            AstKind::StructAccess(StructAccess { struct_, .. }) => struct_.searched_nodes(),
            AstKind::Function(Function { body, .. }) => searched_nodes_seq(body@),
            AstKind::Call(Call { receiver, arguments, .. }) => receiver.searched_nodes()
                + searched_nodes_seq(arguments@),
            AstKind::Assignment(Assignment { body, .. }) => match body {
                AssignmentBody::Function { function, .. } => searched_nodes_seq(function.body@),
                AssignmentBody::Body { pattern, body } => pattern.searched_nodes()
                    + searched_nodes_seq(body@),
            },
            AstKind::Match(Match { expression, cases }) => expression.searched_nodes()
                + searched_nodes_seq(cases@),
            AstKind::MatchCase(MatchCase { pattern, body }) => pattern.searched_nodes()
                + searched_nodes_seq(body@),
            AstKind::OrPattern(OrPattern(patterns)) => searched_nodes_seq(patterns@),
            _ => Seq::empty(),
        }
    }

    /// The errors in this node and below it, in the order in which
    /// `collect_errors` gathers them.
    pub open spec fn errors(self) -> Seq<CompilerError>
        decreases self,
    {
        match self.kind {
            AstKind::Text(Text(parts)) => errors_seq(parts@),
            AstKind::List(List(items)) => errors_seq(items@),
            AstKind::Struct(Struct { fields }) => field_errors(fields@),
            AstKind::StructAccess(StructAccess { struct_, .. }) => struct_.errors(),
            AstKind::Function(Function { body, .. }) => errors_seq(body@),
            AstKind::Call(Call { arguments, .. }) => errors_seq(arguments@),
            AstKind::Assignment(Assignment { body, .. }) => match body {
                AssignmentBody::Function { function, .. } => errors_seq(function.body@),
                AssignmentBody::Body { pattern, body } => pattern.errors() + errors_seq(body@),
            },
            AstKind::Match(Match { expression, cases }) => expression.errors() + errors_seq(
                cases@,
            ),
            AstKind::MatchCase(MatchCase { pattern, body }) => pattern.errors() + errors_seq(
                body@,
            ),
            AstKind::OrPattern(OrPattern(patterns)) => errors_seq(patterns@),
            AstKind::Error { errors } => errors@,
            _ => Seq::empty(),
        }
    }
}

/// The nodes that `find` looks at in a sequence of nodes, in order.
pub open spec fn searched_nodes_seq(asts: Seq<Ast>) -> Seq<Ast>
    decreases asts,
{
    if asts.len() == 0 {
        Seq::empty()
    } else {
        searched_nodes_seq(asts.drop_last()) + asts.last().searched_nodes()
    }
}

/// The nodes that `find` looks at in the fields of a struct: each key, then
/// its value.
pub open spec fn searched_fields(fields: Seq<(Option<Ast>, Ast)>) -> Seq<Ast>
    decreases fields,
{
    if fields.len() == 0 {
        Seq::empty()
    } else {
        searched_fields(fields.drop_last()) + match fields.last().0 {
            Some(key) => key.searched_nodes(),
            None => Seq::empty(),
        } + fields.last().1.searched_nodes()
    }
}

/// The errors of a sequence of nodes, in order.
pub open spec fn errors_seq(asts: Seq<Ast>) -> Seq<CompilerError>
    decreases asts,
{
    if asts.len() == 0 {
        Seq::empty()
    } else {
        errors_seq(asts.drop_last()) + asts.last().errors()
    }
}

/// The errors of the fields of a struct: each key's, then its value's.
pub open spec fn field_errors(fields: Seq<(Option<Ast>, Ast)>) -> Seq<CompilerError>
    decreases fields,
{
    if fields.len() == 0 {
        Seq::empty()
    } else {
        field_errors(fields.drop_last()) + match fields.last().0 {
            Some(key) => key.errors(),
            None => Seq::empty(),
        } + fields.last().1.errors()
    }
}

/// The first of some nodes that has the given ID.
pub open spec fn first_with_id(nodes: Seq<Ast>, id: IdView) -> Option<Ast>
    decreases nodes.len(),
{
    if nodes.len() == 0 {
        None
    } else if nodes[0].id@ == id {
        Some(nodes[0])
    } else {
        first_with_id(nodes.drop_first(), id)
    }
}

/// Whether a search for an ID found the first node with that ID.
pub open spec fn is_first_with_id(result: Option<&Ast>, nodes: Seq<Ast>, id: IdView) -> bool {
    match result {
        Some(found) => first_with_id(nodes, id) == Some(*found),
        None => first_with_id(nodes, id) is None,
    }
}

/// The first node with an ID in two sequences of nodes, one after the other,
/// is the first one in the first sequence, if there is one.
pub proof fn lemma_first_with_id_concat(first: Seq<Ast>, second: Seq<Ast>, id: IdView)
    ensures
        first_with_id(first + second, id) == match first_with_id(first, id) {
            Some(found) => Some(found),
            None => first_with_id(second, id),
        },
    decreases first.len(),
{
    if first.len() == 0 {
        assert(first + second =~= second);
    } else {
        assert((first + second)[0] == first[0]);
        assert((first + second).drop_first() =~= first.drop_first() + second);
        lemma_first_with_id_concat(first.drop_first(), second, id);
    }
}

impl Id {
    /// Whether two IDs are the same.
    pub fn equals(&self, other: &Id) -> (result: bool)
        ensures
            result == (self@ == other@),
    {
        self.local == other.local && self.module.equals(&other.module)
    }
}

impl Ast {
    /// The first node with the given ID, looking at this node first and then
    /// at the nodes below it.
    pub fn find(&self, id: &Id) -> (result: Option<&Ast>)
        ensures
            is_first_with_id(result, self.searched_nodes(), id@),
        decreases self,
    {
        let ghost below = self.searched_nodes().drop_first();
        proof {
            assert(self.searched_nodes()[0] == *self);
            assert(self.searched_nodes().drop_first() =~= below);
        }
        if self.id.equals(id) {
            return Some(self);
        }
        assert(first_with_id(self.searched_nodes(), id@) == first_with_id(below, id@));
        let result = match &self.kind {
            AstKind::List(List(items)) => {
                assert(below =~= searched_nodes_seq(items@));
                find_in(items, id)
            },
            AstKind::Struct(Struct { fields }) => {
                assert(below =~= searched_fields(fields@));
                find_in_fields(fields, id)
            },
            AstKind::StructAccess(StructAccess { struct_, .. }) => {
                assert(below =~= struct_.searched_nodes());
                struct_.find(id)
            },
            AstKind::Function(Function { body, .. }) => {
                assert(below =~= searched_nodes_seq(body@));
                find_in(body, id)
            },
            AstKind::Call(Call { receiver, arguments, .. }) => {
                assert(below =~= receiver.searched_nodes() + searched_nodes_seq(arguments@));
                proof {
                    lemma_first_with_id_concat(
                        receiver.searched_nodes(),
                        searched_nodes_seq(arguments@),
                        id@,
                    );
                }
                match receiver.find(id) {
                    Some(found) => Some(found),
                    None => find_in(arguments, id),
                }
            },
            AstKind::Assignment(Assignment { body, .. }) => match body {
                AssignmentBody::Function { function, .. } => {
                    assert(below =~= searched_nodes_seq(function.body@));
                    find_in(&function.body, id)
                },
                AssignmentBody::Body { pattern, body } => {
                    assert(below =~= pattern.searched_nodes() + searched_nodes_seq(body@));
                    proof {
                        lemma_first_with_id_concat(
                            pattern.searched_nodes(),
                            searched_nodes_seq(body@),
                            id@,
                        );
                    }
                    match pattern.find(id) {
                        Some(found) => Some(found),
                        None => find_in(body, id),
                    }
                },
            },
            AstKind::Match(Match { expression, cases }) => {
                assert(below =~= expression.searched_nodes() + searched_nodes_seq(cases@));
                proof {
                    lemma_first_with_id_concat(
                        expression.searched_nodes(),
                        searched_nodes_seq(cases@),
                        id@,
                    );
                }
                match expression.find(id) {
                    Some(found) => Some(found),
                    None => find_in(cases, id),
                }
            },
            AstKind::MatchCase(MatchCase { pattern, body }) => {
                assert(below =~= pattern.searched_nodes() + searched_nodes_seq(body@));
                proof {
                    lemma_first_with_id_concat(
                        pattern.searched_nodes(),
                        searched_nodes_seq(body@),
                        id@,
                    );
                }
                match pattern.find(id) {
                    Some(found) => Some(found),
                    None => find_in(body, id),
                }
            },
            AstKind::OrPattern(OrPattern(patterns)) => {
                assert(below =~= searched_nodes_seq(patterns@));
                find_in(patterns, id)
            },
            _ => {
                assert(below =~= Seq::<Ast>::empty());
                None
            },
        };
        result
    }
}

/// The first node with the given ID in a sequence of nodes and below them.
pub fn find_in<'a>(asts: &'a Vec<Ast>, id: &Id) -> (result: Option<&'a Ast>)
    ensures
        is_first_with_id(result, searched_nodes_seq(asts@), id@),
    decreases asts,
{
    let mut i: usize = 0;
    while i < asts.len()
        invariant
            i <= asts.len(),
            first_with_id(searched_nodes_seq(asts@.take(i as int)), id@) is None,
        decreases asts.len() - i,
    {
        let ghost before = asts@.take(i as int);
        proof {
            assert(asts@.take(i + 1).drop_last() =~= before);
            assert(asts@.take(i + 1).last() == asts@[i as int]);
            lemma_first_with_id_concat(
                searched_nodes_seq(before),
                asts@[i as int].searched_nodes(),
                id@,
            );
            assert(decreases_to!(asts => asts@[i as int]));
        }
        match asts[i].find(id) {
            Some(found) => {
                proof {
                    lemma_first_with_id_concat(
                        searched_nodes_seq(asts@.take(i + 1)),
                        searched_nodes_seq_from(asts@, i + 1),
                        id@,
                    );
                    lemma_searched_nodes_split(asts@, i + 1);
                }
                return Some(found);
            },
            None => {},
        }
        i = i + 1;
    }
    assert(asts@.take(asts.len() as int) =~= asts@);
    None
}

/// The nodes that `find` looks at in the nodes from an index on.
pub open spec fn searched_nodes_seq_from(asts: Seq<Ast>, start: int) -> Seq<Ast> {
    searched_nodes_seq(asts.skip(start))
}

/// The nodes looked at in a sequence are those of a prefix and then those of
/// the rest.
proof fn lemma_searched_nodes_split(asts: Seq<Ast>, count: int)
    requires
        0 <= count <= asts.len(),
    ensures
        searched_nodes_seq(asts) == searched_nodes_seq(asts.take(count))
            + searched_nodes_seq_from(asts, count),
    decreases asts.len() - count,
{
    if count == asts.len() {
        assert(asts.take(count) =~= asts);
        assert(asts.skip(count) =~= Seq::<Ast>::empty());
        assert(searched_nodes_seq(asts) + Seq::<Ast>::empty() =~= searched_nodes_seq(asts));
    } else {
        lemma_searched_nodes_split(asts, count + 1);
        let rest = asts.skip(count);
        lemma_searched_nodes_first(rest);
        assert(rest.drop_first() =~= asts.skip(count + 1));
        assert(rest[0] == asts[count]);
        assert(asts.take(count + 1).drop_last() =~= asts.take(count));
        assert(asts.take(count + 1).last() == asts[count]);
        assert(searched_nodes_seq(asts.take(count)) + asts[count].searched_nodes()
            + searched_nodes_seq(asts.skip(count + 1)) =~= searched_nodes_seq(asts.take(count))
            + (asts[count].searched_nodes() + searched_nodes_seq(asts.skip(count + 1))));
    }
}

/// The nodes looked at in a sequence are those of its first node and then
/// those of the others.
proof fn lemma_searched_nodes_first(asts: Seq<Ast>)
    requires
        asts.len() > 0,
    ensures
        searched_nodes_seq(asts) == asts[0].searched_nodes() + searched_nodes_seq(
            asts.drop_first(),
        ),
    decreases asts.len(),
{
    if asts.len() == 1 {
        assert(asts.drop_last() =~= Seq::<Ast>::empty());
        assert(asts.drop_first() =~= Seq::<Ast>::empty());
        assert(searched_nodes_seq(asts.drop_last()) =~= Seq::<Ast>::empty());
        assert(asts.last() == asts[0]);
        assert(searched_nodes_seq(asts) =~= asts[0].searched_nodes());
        assert(asts[0].searched_nodes() + Seq::<Ast>::empty() =~= asts[0].searched_nodes());
    } else {
        lemma_searched_nodes_first(asts.drop_last());
        assert(asts.drop_last()[0] == asts[0]);
        assert(asts.drop_last().drop_first() =~= asts.drop_first().drop_last());
        assert(asts.drop_first().last() == asts.last());
        assert(asts[0].searched_nodes() + searched_nodes_seq(asts.drop_first().drop_last())
            + asts.last().searched_nodes() =~= asts[0].searched_nodes() + (searched_nodes_seq(
            asts.drop_first().drop_last(),
        ) + asts.last().searched_nodes()));
    }
}

/// The first node with the given ID in the fields of a struct and below them.
pub fn find_in_fields<'a>(fields: &'a Vec<(Option<Ast>, Ast)>, id: &Id) -> (result: Option<
    &'a Ast,
>)
    ensures
        is_first_with_id(result, searched_fields(fields@), id@),
    decreases fields,
{
    let mut i: usize = 0;
    while i < fields.len()
        invariant
            i <= fields.len(),
            first_with_id(searched_fields(fields@.take(i as int)), id@) is None,
        decreases fields.len() - i,
    {
        let ghost before = fields@.take(i as int);
        let ghost field = fields@[i as int];
        let ghost key_nodes = match field.0 {
            Some(key) => key.searched_nodes(),
            None => Seq::empty(),
        };
        proof {
            assert(fields@.take(i + 1).drop_last() =~= before);
            assert(fields@.take(i + 1).last() == field);
            lemma_first_with_id_concat(searched_fields(before), key_nodes, id@);
            lemma_first_with_id_concat(
                searched_fields(before) + key_nodes,
                field.1.searched_nodes(),
                id@,
            );
            assert(decreases_to!(fields => fields@[i as int]));
        }
        let (key, value) = &fields[i];
        match key {
            Some(key) => {
                match key.find(id) {
                    Some(found) => {
                        proof {
                            lemma_fields_split(fields@, i + 1);
                            lemma_first_with_id_concat(
                                searched_fields(fields@.take(i + 1)),
                                searched_fields(fields@.skip(i + 1)),
                                id@,
                            );
                            lemma_first_with_id_concat(
                                searched_fields(before),
                                key_nodes + field.1.searched_nodes(),
                                id@,
                            );
                            lemma_first_with_id_concat(key_nodes, field.1.searched_nodes(), id@);
                            assert(searched_fields(fields@.take(i + 1)) =~= searched_fields(before)
                                + (key_nodes + field.1.searched_nodes()));
                        }
                        return Some(found);
                    },
                    None => {},
                }
            },
            None => {},
        }
        match value.find(id) {
            Some(found) => {
                proof {
                    lemma_fields_split(fields@, i + 1);
                    lemma_first_with_id_concat(
                        searched_fields(fields@.take(i + 1)),
                        searched_fields(fields@.skip(i + 1)),
                        id@,
                    );
                }
                return Some(found);
            },
            None => {},
        }
        i = i + 1;
    }
    assert(fields@.take(fields.len() as int) =~= fields@);
    None
}

/// The nodes looked at in fields are those of a prefix of them and then
/// those of the rest.
proof fn lemma_fields_split(fields: Seq<(Option<Ast>, Ast)>, count: int)
    requires
        0 <= count <= fields.len(),
    ensures
        searched_fields(fields) == searched_fields(fields.take(count)) + searched_fields(
            fields.skip(count),
        ),
    decreases fields.len() - count,
{
    if count == fields.len() {
        assert(fields.take(count) =~= fields);
        assert(fields.skip(count) =~= Seq::<(Option<Ast>, Ast)>::empty());
        assert(searched_fields(fields) + Seq::<Ast>::empty() =~= searched_fields(fields));
    } else {
        lemma_fields_split(fields, count + 1);
        lemma_fields_first(fields.skip(count));
        assert(fields.skip(count).drop_first() =~= fields.skip(count + 1));
        assert(fields.skip(count)[0] == fields[count]);
        assert(fields.take(count + 1).drop_last() =~= fields.take(count));
        assert(fields.take(count + 1).last() == fields[count]);
        let key_nodes = match fields[count].0 {
            Some(key) => key.searched_nodes(),
            None => Seq::empty(),
        };
        assert(searched_fields(fields.take(count)) + key_nodes + fields[count].1.searched_nodes()
            + searched_fields(fields.skip(count + 1)) =~= searched_fields(fields.take(count)) + (
        key_nodes + fields[count].1.searched_nodes() + searched_fields(fields.skip(count + 1))));
    }
}

/// The nodes looked at in fields are those of the first field and then those
/// of the others.
proof fn lemma_fields_first(fields: Seq<(Option<Ast>, Ast)>)
    requires
        fields.len() > 0,
    ensures
        searched_fields(fields) == (match fields[0].0 {
            Some(key) => key.searched_nodes(),
            None => Seq::empty(),
        }) + fields[0].1.searched_nodes() + searched_fields(fields.drop_first()),
    decreases fields.len(),
{
    let key_nodes = match fields[0].0 {
        Some(key) => key.searched_nodes(),
        None => Seq::empty(),
    };
    if fields.len() == 1 {
        assert(fields.drop_last() =~= Seq::<(Option<Ast>, Ast)>::empty());
        assert(fields.drop_first() =~= Seq::<(Option<Ast>, Ast)>::empty());
        assert(searched_fields(fields.drop_last()) =~= Seq::<Ast>::empty());
        assert(fields.last() == fields[0]);
        assert(searched_fields(fields) =~= key_nodes + fields[0].1.searched_nodes());
        assert(key_nodes + fields[0].1.searched_nodes() + Seq::<Ast>::empty() =~= key_nodes
            + fields[0].1.searched_nodes());
    } else {
        lemma_fields_first(fields.drop_last());
        assert(fields.drop_last()[0] == fields[0]);
        assert(fields.drop_last().drop_first() =~= fields.drop_first().drop_last());
        assert(fields.drop_first().last() == fields.last());
        let last_nodes = match fields.last().0 {
            Some(key) => key.searched_nodes(),
            None => Seq::empty(),
        } + fields.last().1.searched_nodes();
        assert(searched_fields(fields) =~= searched_fields(fields.drop_last()) + last_nodes);
        assert(searched_fields(fields.drop_first()) =~= searched_fields(
            fields.drop_first().drop_last(),
        ) + last_nodes);
        assert(key_nodes + fields[0].1.searched_nodes() + searched_fields(
            fields.drop_first().drop_last(),
        ) + last_nodes =~= key_nodes + fields[0].1.searched_nodes() + (searched_fields(
            fields.drop_first().drop_last(),
        ) + last_nodes));
    }
}

/// Gathering the errors of syntax trees.
pub trait CollectErrors: Sized {
    /// The errors that `collect_errors` gathers, in order.
    spec fn error_list(self) -> Seq<CompilerError>;

    /// Appends the errors in the tree, in order.
    fn collect_errors(self, errors: &mut Vec<CompilerError>)
        ensures
            final(errors)@ == old(errors)@ + self.error_list(),
    ;
}

impl CollectErrors for Ast {
    open spec fn error_list(self) -> Seq<CompilerError> {
        self.errors()
    }

    fn collect_errors(self, errors: &mut Vec<CompilerError>) {
        collect_ast_errors(self, errors);
    }
}

impl CollectErrors for Vec<Ast> {
    open spec fn error_list(self) -> Seq<CompilerError> {
        errors_seq(self@)
    }

    fn collect_errors(self, errors: &mut Vec<CompilerError>) {
        collect_errors_in(self, errors);
    }
}

/// Appends the errors in a node and below it, in order.
fn collect_ast_errors(ast: Ast, errors: &mut Vec<CompilerError>)
    ensures
        final(errors)@ == old(errors)@ + ast.errors(),
    decreases ast,
{
    let ghost start = errors@;
    let ghost all = ast.errors();
    match ast.kind {
        AstKind::Text(Text(parts)) => collect_errors_in(parts, errors),
        AstKind::List(List(items)) => collect_errors_in(items, errors),
        AstKind::Struct(Struct { fields }) => collect_field_errors(fields, errors),
        AstKind::StructAccess(StructAccess { struct_, .. }) => collect_ast_errors(*struct_, errors),
        AstKind::Function(Function { body, .. }) => collect_errors_in(body, errors),
        AstKind::Call(Call { arguments, .. }) => collect_errors_in(arguments, errors),
        AstKind::Assignment(Assignment { body, .. }) => match body {
            AssignmentBody::Function { function, .. } => collect_errors_in(function.body, errors),
            AssignmentBody::Body { pattern, body } => {
                let ghost pattern_errors = pattern.errors();
                collect_ast_errors(*pattern, errors);
                collect_errors_in(body, errors);
                assert(errors@ =~= start + all);
            },
        },
        AstKind::Match(Match { expression, cases }) => {
            collect_ast_errors(*expression, errors);
            collect_errors_in(cases, errors);
            assert(errors@ =~= start + all);
        },
        AstKind::MatchCase(MatchCase { pattern, body }) => {
            collect_ast_errors(*pattern, errors);
            collect_errors_in(body, errors);
            assert(errors@ =~= start + all);
        },
        AstKind::OrPattern(OrPattern(patterns)) => collect_errors_in(patterns, errors),
        AstKind::Error { errors: found } => {
            let mut found = found;
            errors.append(&mut found);
        },
        _ => {
            assert(errors@ =~= start + all);
        },
    }
}

/// The errors of a sequence of nodes are those of its first node and then
/// those of the others.
proof fn lemma_errors_first(asts: Seq<Ast>)
    requires
        asts.len() > 0,
    ensures
        errors_seq(asts) == asts[0].errors() + errors_seq(asts.drop_first()),
    decreases asts.len(),
{
    if asts.len() == 1 {
        assert(asts.drop_last() =~= Seq::<Ast>::empty());
        assert(asts.drop_first() =~= Seq::<Ast>::empty());
        assert(errors_seq(asts.drop_last()) =~= Seq::<CompilerError>::empty());
        assert(asts.last() == asts[0]);
        assert(errors_seq(asts) =~= asts[0].errors());
        assert(asts[0].errors() + Seq::<CompilerError>::empty() =~= asts[0].errors());
    } else {
        lemma_errors_first(asts.drop_last());
        assert(asts.drop_last()[0] == asts[0]);
        assert(asts.drop_last().drop_first() =~= asts.drop_first().drop_last());
        assert(asts.drop_first().last() == asts.last());
        assert(asts[0].errors() + errors_seq(asts.drop_first().drop_last()) + asts.last().errors()
            =~= asts[0].errors() + (errors_seq(asts.drop_first().drop_last())
            + asts.last().errors()));
    }
}

/// Appends the errors of a sequence of nodes, in order.
fn collect_errors_in(asts: Vec<Ast>, errors: &mut Vec<CompilerError>)
    ensures
        final(errors)@ == old(errors)@ + errors_seq(asts@),
    decreases asts,
{
    let ghost start = errors@;
    let ghost all = asts@;
    let mut rest = asts;
    let ghost mut done: int = 0;
    assert(all.skip(0) =~= all);
    while rest.len() > 0
        invariant
            all == asts@,
            0 <= done <= all.len(),
            rest@ == all.skip(done),
            start + errors_seq(all) == errors@ + errors_seq(rest@),
        decreases rest.len(),
    {
        let ghost before = rest@;
        let ast = rest.remove(0);
        proof {
            lemma_errors_first(before);
            assert(before.drop_first() =~= rest@);
            assert(ast == all[done]);
            assert(decreases_to!(asts => asts@[done]));
        }
        let ghost collected = errors@;
        collect_ast_errors(ast, errors);
        proof {
            assert(collected + (ast.errors() + errors_seq(rest@)) =~= collected + ast.errors()
                + errors_seq(rest@));
            assert(all.skip(done + 1) =~= rest@);
        }
        proof {
            done = done + 1;
        }
    }
    assert(errors_seq(rest@) =~= Seq::<CompilerError>::empty());
    assert(errors@ + Seq::<CompilerError>::empty() =~= errors@);
}

/// The errors of fields are those of the first field and then those of the
/// others.
proof fn lemma_field_errors_first(fields: Seq<(Option<Ast>, Ast)>)
    requires
        fields.len() > 0,
    ensures
        field_errors(fields) == (match fields[0].0 {
            Some(key) => key.errors(),
            None => Seq::empty(),
        }) + fields[0].1.errors() + field_errors(fields.drop_first()),
    decreases fields.len(),
{
    let key_errors = match fields[0].0 {
        Some(key) => key.errors(),
        None => Seq::empty(),
    };
    if fields.len() == 1 {
        assert(fields.drop_last() =~= Seq::<(Option<Ast>, Ast)>::empty());
        assert(fields.drop_first() =~= Seq::<(Option<Ast>, Ast)>::empty());
        assert(field_errors(fields.drop_last()) =~= Seq::<CompilerError>::empty());
        assert(fields.last() == fields[0]);
        assert(field_errors(fields) =~= key_errors + fields[0].1.errors());
        assert(key_errors + fields[0].1.errors() + Seq::<CompilerError>::empty() =~= key_errors
            + fields[0].1.errors());
    } else {
        lemma_field_errors_first(fields.drop_last());
        assert(fields.drop_last()[0] == fields[0]);
        assert(fields.drop_last().drop_first() =~= fields.drop_first().drop_last());
        assert(fields.drop_first().last() == fields.last());
        let last_errors = match fields.last().0 {
            Some(key) => key.errors(),
            None => Seq::empty(),
        } + fields.last().1.errors();
        assert(field_errors(fields) =~= field_errors(fields.drop_last()) + last_errors);
        assert(field_errors(fields.drop_first()) =~= field_errors(fields.drop_first().drop_last())
            + last_errors);
        assert(key_errors + fields[0].1.errors() + field_errors(fields.drop_first().drop_last())
            + last_errors =~= key_errors + fields[0].1.errors() + (field_errors(
            fields.drop_first().drop_last(),
        ) + last_errors));
    }
}

/// Appends the errors of the fields of a struct, each key's before its
/// value's.
fn collect_field_errors(fields: Vec<(Option<Ast>, Ast)>, errors: &mut Vec<CompilerError>)
    ensures
        final(errors)@ == old(errors)@ + field_errors(fields@),
    decreases fields,
{
    let ghost start = errors@;
    let ghost all = fields@;
    let mut rest = fields;
    let ghost mut done: int = 0;
    assert(all.skip(0) =~= all);
    while rest.len() > 0
        invariant
            all == fields@,
            0 <= done <= all.len(),
            rest@ == all.skip(done),
            start + field_errors(all) == errors@ + field_errors(rest@),
        decreases rest.len(),
    {
        let ghost before = rest@;
        let (key, value) = rest.remove(0);
        proof {
            lemma_field_errors_first(before);
            assert(before.drop_first() =~= rest@);
            assert((key, value) == all[done]);
            assert(decreases_to!(fields => fields@[done]));
            assert(decreases_to!(fields@[done] => value));
        }
        let ghost collected = errors@;
        let ghost key_errors = match key {
            Some(ref key) => key.errors(),
            None => Seq::<CompilerError>::empty(),
        };
        match key {
            Some(key) => collect_ast_errors(key, errors),
            None => {
                assert(errors@ =~= collected + key_errors);
            },
        }
        collect_ast_errors(value, errors);
        proof {
            assert(collected + (key_errors + value.errors() + field_errors(rest@)) =~= collected
                + key_errors + value.errors() + field_errors(rest@));
            assert(all.skip(done + 1) =~= rest@);
        }
        proof {
            done = done + 1;
        }
    }
    assert(field_errors(rest@) =~= Seq::<CompilerError>::empty());
    assert(errors@ + Seq::<CompilerError>::empty() =~= errors@);
}

/// The values of IDs.
pub open spec fn id_views(ids: Seq<Id>) -> Seq<IdView> {
    ids.map_values(|id: Id| id@)
}

/// The value of captured identifiers: each name with the IDs of the places
/// that capture it.
pub open spec fn capture_entries(entries: Seq<(String, Vec<Id>)>) -> Seq<(Seq<char>, Seq<IdView>)> {
    entries.map_values(|entry: (String, Vec<Id>)| (entry.0@, id_views(entry.1@)))
}

/// The first entry for a name, if there is one.
pub open spec fn entry_index(entries: Seq<(Seq<char>, Seq<IdView>)>, name: Seq<char>) -> Option<
    int,
>
    decreases entries.len(),
{
    if entries.len() == 0 {
        None
    } else if entries.last().0 == name && entry_index(entries.drop_last(), name) is None {
        Some(entries.len() - 1)
    } else {
        entry_index(entries.drop_last(), name)
    }
}

/// Adds a capture of a name: to the name's entry where it has one, and as a
/// new entry at the end where it has none.
pub open spec fn add_capture(
    entries: Seq<(Seq<char>, Seq<IdView>)>,
    capture: (Seq<char>, IdView),
) -> Seq<(Seq<char>, Seq<IdView>)> {
    match entry_index(entries, capture.0) {
        Some(index) => entries.update(index, (capture.0, entries[index].1.push(capture.1))),
        None => entries.push((capture.0, seq![capture.1])),
    }
}

/// Adds captures, one after the other.
pub open spec fn add_captures(
    entries: Seq<(Seq<char>, Seq<IdView>)>,
    captures: Seq<(Seq<char>, IdView)>,
) -> Seq<(Seq<char>, Seq<IdView>)>
    decreases captures.len(),
{
    if captures.len() == 0 {
        entries
    } else {
        add_capture(add_captures(entries, captures.drop_last()), captures.last())
    }
}

/// Adding captures one sequence after another adds them all.
proof fn lemma_add_captures_concat(
    entries: Seq<(Seq<char>, Seq<IdView>)>,
    first: Seq<(Seq<char>, IdView)>,
    second: Seq<(Seq<char>, IdView)>,
)
    ensures
        add_captures(add_captures(entries, first), second) == add_captures(entries, first + second),
    decreases second.len(),
{
    if second.len() == 0 {
        assert(first + second =~= first);
    } else {
        lemma_add_captures_concat(entries, first, second.drop_last());
        assert((first + second).drop_last() =~= first + second.drop_last());
        assert((first + second).last() == second.last());
    }
}

impl AstKind {
    /// The names that a pattern captures, with the IDs of the places that
    /// capture them, in the order of those places: identifiers, also inside
    /// lists, structs and or-patterns.
    pub open spec fn captures(self) -> Seq<(Seq<char>, IdView)>
        decreases self,
    {
        match self {
            AstKind::Identifier(Identifier(identifier)) => seq![
                (identifier.value@, identifier.id@),
            ],
            AstKind::List(List(items)) => captures_seq(items@),
            AstKind::Struct(Struct { fields }) => field_captures(fields@),
            AstKind::OrPattern(OrPattern(patterns)) => captures_seq(patterns@),
            _ => Seq::empty(),
        }
    }
}

/// The captures of a sequence of nodes, in order.
pub open spec fn captures_seq(asts: Seq<Ast>) -> Seq<(Seq<char>, IdView)>
    decreases asts,
{
    if asts.len() == 0 {
        Seq::empty()
    } else {
        captures_seq(asts.drop_last()) + asts.last().kind.captures()
    }
}

/// The captures of the fields of a struct: each key's, then its value's.
pub open spec fn field_captures(fields: Seq<(Option<Ast>, Ast)>) -> Seq<(Seq<char>, IdView)>
    decreases fields,
{
    if fields.len() == 0 {
        Seq::empty()
    } else {
        field_captures(fields.drop_last()) + match fields.last().0 {
            Some(key) => key.kind.captures(),
            None => Seq::empty(),
        } + fields.last().1.kind.captures()
    }
}

impl AstKind {
    /// The identifiers that this pattern captures: each name with the IDs
    /// of the places that capture it, in order. Names come in the order in
    /// which they are first captured.
    pub fn captured_identifiers(&self) -> (result: Vec<(String, Vec<Id>)>)
        ensures
            capture_entries(result@) == add_captures(Seq::empty(), self.captures()),
    {
        let mut captured: Vec<(String, Vec<Id>)> = Vec::new();
        assert(capture_entries(captured@) =~= Seq::empty());
        self.captured_identifiers_helper(&mut captured);
        captured
    }

    fn captured_identifiers_helper(&self, captured: &mut Vec<(String, Vec<Id>)>)
        ensures
            capture_entries(final(captured)@) == add_captures(
                capture_entries(old(captured)@),
                self.captures(),
            ),
        decreases self,
    {
        match self {
            AstKind::Identifier(Identifier(identifier)) => {
                let ghost before = capture_entries(captured@);
                add_captured(captured, &identifier.value, &identifier.id);
                proof {
                    let capture = (identifier.value@, identifier.id@);
                    assert(self.captures() == seq![capture]);
                    assert(seq![capture].drop_last() =~= Seq::<(Seq<char>, IdView)>::empty());
                    assert(seq![capture].last() == capture);
                    assert(add_captures(before, Seq::<(Seq<char>, IdView)>::empty()) == before);
                    assert(add_captures(before, seq![capture]) == add_capture(before, capture));
                }
            },
            AstKind::List(List(items)) => captured_in(items, captured),
            AstKind::Struct(Struct { fields }) => captured_in_fields(fields, captured),
            AstKind::OrPattern(OrPattern(patterns)) => captured_in(patterns, captured),
            _ => {},
        }
    }
}

/// Adds a capture of a name to captured identifiers.
fn add_captured(captured: &mut Vec<(String, Vec<Id>)>, name: &String, id: &Id)
    ensures
        capture_entries(final(captured)@) == add_capture(
            capture_entries(old(captured)@),
            (name@, id@),
        ),
{
    let ghost entries = capture_entries(captured@);
    let mut i: usize = 0;
    while i < captured.len()
        invariant
            i <= captured.len(),
            entries == capture_entries(captured@),
            captured@ == old(captured)@,
            forall|j: int| 0 <= j < i ==> entries[j].0 != name@,
        decreases captured.len() - i,
    {
        if crate::text::str_equal(captured[i].0.as_str(), name.as_str()) {
            proof {
                lemma_entry_index_first(entries, name@, i as int);
            }
            let mut entry = captured.remove(i);
            let ghost old_ids = entry.1@;
            entry.1.push(id.clone());
            captured.insert(i, entry);
            proof {
                assert(id_views(entry.1@) =~= id_views(old_ids).push(id@));
                assert(capture_entries(captured@) =~= entries.update(
                    i as int,
                    (name@, entries[i as int].1.push(id@)),
                ));
                assert(add_capture(entries, (name@, id@)) == entries.update(
                    i as int,
                    (name@, entries[i as int].1.push(id@)),
                ));
            }
            return ;
        }
        i = i + 1;
    }
    proof {
        lemma_entry_index_none(entries, name@);
    }
    let mut ids: Vec<Id> = Vec::new();
    ids.push(id.clone());
    captured.push((name.clone(), ids));
    proof {
        assert(id_views(ids@) =~= seq![id@]);
        assert(capture_entries(captured@) =~= entries.push((name@, seq![id@])));
    }
}

/// The first entry for a name is the first one that holds it.
proof fn lemma_entry_index_first(entries: Seq<(Seq<char>, Seq<IdView>)>, name: Seq<char>, i: int)
    requires
        0 <= i < entries.len(),
        entries[i].0 == name,
        forall|j: int| 0 <= j < i ==> entries[j].0 != name,
    ensures
        entry_index(entries, name) == Some(i),
    decreases entries.len(),
{
    if i < entries.len() - 1 {
        lemma_entry_index_first(entries.drop_last(), name, i);
    } else {
        lemma_entry_index_none(entries.drop_last(), name);
    }
}

/// Where no entry holds a name, there is no entry for it.
proof fn lemma_entry_index_none(entries: Seq<(Seq<char>, Seq<IdView>)>, name: Seq<char>)
    requires
        forall|j: int| 0 <= j < entries.len() ==> entries[j].0 != name,
    ensures
        entry_index(entries, name) is None,
    decreases entries.len(),
{
    if entries.len() > 0 {
        lemma_entry_index_none(entries.drop_last(), name);
    }
}

/// Adds the captures of a sequence of nodes, in order.
fn captured_in(asts: &Vec<Ast>, captured: &mut Vec<(String, Vec<Id>)>)
    ensures
        capture_entries(final(captured)@) == add_captures(
            capture_entries(old(captured)@),
            captures_seq(asts@),
        ),
    decreases asts,
{
    let ghost start = capture_entries(captured@);
    let mut i: usize = 0;
    while i < asts.len()
        invariant
            i <= asts.len(),
            capture_entries(captured@) == add_captures(start, captures_seq(asts@.take(i as int))),
        decreases asts.len() - i,
    {
        proof {
            assert(asts@.take(i + 1).drop_last() =~= asts@.take(i as int));
            assert(asts@.take(i + 1).last() == asts@[i as int]);
            lemma_add_captures_concat(
                start,
                captures_seq(asts@.take(i as int)),
                asts@[i as int].kind.captures(),
            );
            assert(decreases_to!(asts => asts@[i as int]));
            assert(decreases_to!(asts@[i as int] => asts@[i as int].kind));
        }
        asts[i].kind.captured_identifiers_helper(captured);
        i = i + 1;
    }
    assert(asts@.take(asts.len() as int) =~= asts@);
}

/// Adds the captures of the fields of a struct, each key's before its
/// value's.
fn captured_in_fields(fields: &Vec<(Option<Ast>, Ast)>, captured: &mut Vec<(String, Vec<Id>)>)
    ensures
        capture_entries(final(captured)@) == add_captures(
            capture_entries(old(captured)@),
            field_captures(fields@),
        ),
    decreases fields,
{
    let ghost start = capture_entries(captured@);
    let mut i: usize = 0;
    while i < fields.len()
        invariant
            i <= fields.len(),
            capture_entries(captured@) == add_captures(start, field_captures(fields@.take(i as int))),
        decreases fields.len() - i,
    {
        let ghost field = fields@[i as int];
        let ghost key_captures = match field.0 {
            Some(key) => key.kind.captures(),
            None => Seq::empty(),
        };
        proof {
            assert(fields@.take(i + 1).drop_last() =~= fields@.take(i as int));
            assert(fields@.take(i + 1).last() == field);
            lemma_add_captures_concat(start, field_captures(fields@.take(i as int)), key_captures);
            lemma_add_captures_concat(
                start,
                field_captures(fields@.take(i as int)) + key_captures,
                field.1.kind.captures(),
            );
            assert(decreases_to!(fields => fields@[i as int]));
        }
        let (key, value) = &fields[i];
        match key {
            Some(key) => {
                proof {
                    assert(decreases_to!(fields@[i as int] => *key));
                    assert(decreases_to!(*key => key.kind));
                }
                key.kind.captured_identifiers_helper(captured);
            },
            None => {
                assert(field_captures(fields@.take(i as int)) + key_captures =~= field_captures(
                    fields@.take(i as int),
                ));
            },
        }
        proof {
            assert(decreases_to!(fields@[i as int] => *value));
            assert(decreases_to!(*value => value.kind));
        }
        value.kind.captured_identifiers_helper(captured);
        i = i + 1;
    }
    assert(fields@.take(fields.len() as int) =~= fields@);
}

} // verus!
