use vstd::prelude::*;

verus! {

/// The kinds of node in a parse tree of the flow-query language.
#[derive(Debug, Clone, Copy, PartialEq, Eq, Structural)]
pub enum Rule {
    Query,
    Pipeline,
    Source,
    TableRef,
    Ident,
    PipeTransform,
    SideEffectTransform,
    Other,
}

/// A node of a parse tree: its rule, the text it spans, and its children.
#[derive(Debug)]
pub struct ParseNode {
    pub rule: Rule,
    pub text: String,
    pub children: Vec<ParseNode>,
}

/// Why a parse tree does not read as a query.
#[derive(Debug, Clone, Copy, PartialEq, Eq, Structural)]
pub enum ParseError {
    NotImplemented,
    UnexpectedToken,
    MissingToken,
}

/// A table named in a query, with an optional alias.
#[derive(Debug)]
pub struct TableRef {
    pub table_name: String,
    pub alias: Option<String>,
}

/// Where a pipeline takes its rows from.
#[derive(Debug)]
pub enum SourceClass {
    TableRef(TableRef),
}

/// The source of a pipeline.
#[derive(Debug)]
pub struct Source {
    pub source_option: SourceClass,
}

/// A transformation that passes rows on (a select, a filter).
#[derive(Debug, Clone, Copy, PartialEq, Eq, Structural)]
pub struct PipeTransform {}

/// A transformation with an effect elsewhere (an update).
#[derive(Debug, Clone, Copy, PartialEq, Eq, Structural)]
pub struct SideEffectTransform {}

/// The kinds of transformation in a pipeline.
#[derive(Debug, Clone, Copy, PartialEq, Eq, Structural)]
pub enum TransformationClass {
    Pipe(PipeTransform),
    SideEffect(SideEffectTransform),
}

/// A source followed by transformations.
#[derive(Debug)]
pub struct Pipeline {
    pub source: Source,
    pub transforms: Vec<TransformationClass>,
}

/// A whole query: one pipeline.
#[derive(Debug)]
pub struct Query {
    pub pipeline: Pipeline,
}

/// A table reference as plain values: the table name and the alias.
pub open spec fn table_ref_view(t: TableRef) -> (Seq<char>, Option<Seq<char>>) {
    (t.table_name@, match t.alias {
        Some(a) => Some(a@),
        None => None,
    })
}

/// What a `table_ref` node reads as: its first child names the table and
/// its second, if there is one, the alias; both must be identifiers.
pub open spec fn table_ref_spec(node: ParseNode) -> Result<(Seq<char>, Option<Seq<char>>), ParseError> {
    let kids = node.children@;
    if node.rule != Rule::TableRef {
        Err(ParseError::UnexpectedToken)
    } else if kids.len() == 0 {
        Err(ParseError::MissingToken)
    } else if kids[0].rule != Rule::Ident {
        Err(ParseError::UnexpectedToken)
    } else if kids.len() >= 2 && kids[1].rule != Rule::Ident {
        Err(ParseError::UnexpectedToken)
    } else {
        Ok((kids[0].text@, if kids.len() >= 2 { Some(kids[1].text@) } else { None }))
    }
}

/// What a `source` node reads as: its first child, which must be a table
/// reference.
pub open spec fn source_spec(node: ParseNode) -> Result<(Seq<char>, Option<Seq<char>>), ParseError> {
    let kids = node.children@;
    if node.rule != Rule::Source {
        Err(ParseError::UnexpectedToken)
    } else if kids.len() == 0 {
        Err(ParseError::MissingToken)
    } else if kids[0].rule != Rule::TableRef {
        Err(ParseError::UnexpectedToken)
    } else {
        table_ref_spec(kids[0])
    }
}

/// What a transformation node reads as: a pipe or a side-effect transform,
/// each with at least one child.
pub open spec fn transform_spec(node: ParseNode) -> Result<TransformationClass, ParseError> {
    if node.rule == Rule::PipeTransform {
        if node.children@.len() == 0 {
            Err(ParseError::MissingToken)
        } else {
            Ok(TransformationClass::Pipe(PipeTransform {  }))
        }
    } else if node.rule == Rule::SideEffectTransform {
        if node.children@.len() == 0 {
            Err(ParseError::MissingToken)
        } else {
            Ok(TransformationClass::SideEffect(SideEffectTransform {  }))
        }
    } else {
        Err(ParseError::UnexpectedToken)
    }
}

/// The transformations that `nodes` read as, in order, or the error of the
/// first one that does not read.
pub open spec fn transforms_spec(nodes: Seq<ParseNode>) -> Result<Seq<TransformationClass>, ParseError>
    decreases nodes.len(),
{
    if nodes.len() == 0 {
        Ok(Seq::empty())
    } else {
        match transform_spec(nodes[0]) {
            Err(e) => Err(e),
            Ok(t) => match transforms_spec(nodes.drop_first()) {
                Err(e) => Err(e),
                Ok(ts) => Ok(seq![t] + ts),
            },
        }
    }
}

/// What a `pipeline` node reads as: a source first, then transformations.
pub open spec fn pipeline_spec(node: ParseNode) -> Result<
    ((Seq<char>, Option<Seq<char>>), Seq<TransformationClass>),
    ParseError,
> {
    let kids = node.children@;
    if node.rule != Rule::Pipeline {
        Err(ParseError::UnexpectedToken)
    } else if kids.len() == 0 {
        Err(ParseError::MissingToken)
    } else {
        match source_spec(kids[0]) {
            Err(e) => Err(e),
            Ok(src) => match transforms_spec(kids.drop_first()) {
                Err(e) => Err(e),
                Ok(ts) => Ok((src, ts)),
            },
        }
    }
}

/// What a `query` node reads as: the pipeline of its first child.
pub open spec fn query_spec(node: ParseNode) -> Result<
    ((Seq<char>, Option<Seq<char>>), Seq<TransformationClass>),
    ParseError,
> {
    let kids = node.children@;
    if node.rule != Rule::Query {
        Err(ParseError::UnexpectedToken)
    } else if kids.len() == 0 {
        Err(ParseError::MissingToken)
    } else {
        pipeline_spec(kids[0])
    }
}

/// The source of a pipeline as plain values.
pub open spec fn source_view(s: Source) -> (Seq<char>, Option<Seq<char>>) {
    match s.source_option {
        SourceClass::TableRef(t) => table_ref_view(t),
    }
}

impl TableRef {
    pub fn parse(node: &ParseNode) -> (r: Result<TableRef, ParseError>)
        ensures
            match r {
                Ok(t) => table_ref_spec(*node) == Ok::<_, ParseError>(table_ref_view(t)),
                Err(e) => table_ref_spec(*node) == Err::<(Seq<char>, Option<Seq<char>>), _>(e),
            },
    {
        if node.rule != Rule::TableRef {
            return Err(ParseError::UnexpectedToken);
        }
        if node.children.len() == 0 {
            return Err(ParseError::MissingToken);
        }
        let name_node = &node.children[0];
        if name_node.rule != Rule::Ident {
            return Err(ParseError::UnexpectedToken);
        }
        let table_name = name_node.text.clone();
        let alias = if node.children.len() >= 2 {
            let alias_node = &node.children[1];
            if alias_node.rule != Rule::Ident {
                return Err(ParseError::UnexpectedToken);
            }
            Some(alias_node.text.clone())
        } else {
            None
        };
        Ok(TableRef { table_name, alias })
    }
}

impl Source {
    pub fn parse(node: &ParseNode) -> (r: Result<Source, ParseError>)
        ensures
            match r {
                Ok(s) => source_spec(*node) == Ok::<_, ParseError>(source_view(s)),
                Err(e) => source_spec(*node) == Err::<(Seq<char>, Option<Seq<char>>), _>(e),
            },
    {
        if node.rule != Rule::Source {
            return Err(ParseError::UnexpectedToken);
        }
        if node.children.len() == 0 {
            return Err(ParseError::MissingToken);
        }
        let inner = &node.children[0];
        if inner.rule != Rule::TableRef {
            return Err(ParseError::UnexpectedToken);
        }
        match TableRef::parse(inner) {
            Ok(t) => Ok(Source { source_option: SourceClass::TableRef(t) }),
            Err(e) => Err(e),
        }
    }
}

impl PipeTransform {
    pub fn parse(node: &ParseNode) -> (r: Result<PipeTransform, ParseError>)
        ensures
            r == Ok::<PipeTransform, ParseError>(PipeTransform {  }),
    {
        Ok(PipeTransform {  })
    }
}

impl SideEffectTransform {
    pub fn parse(node: &ParseNode) -> (r: Result<SideEffectTransform, ParseError>)
        ensures
            r == Ok::<SideEffectTransform, ParseError>(SideEffectTransform {  }),
    {
        Ok(SideEffectTransform {  })
    }
}

impl TransformationClass {
    pub fn parse(node: &ParseNode) -> (r: Result<TransformationClass, ParseError>)
        ensures
            r == transform_spec(*node),
    {
        if node.rule == Rule::PipeTransform {
            if node.children.len() == 0 {
                return Err(ParseError::MissingToken);
            }
            match PipeTransform::parse(&node.children[0]) {
                Ok(p) => Ok(TransformationClass::Pipe(p)),
                Err(e) => Err(e),
            }
        } else if node.rule == Rule::SideEffectTransform {
            if node.children.len() == 0 {
                return Err(ParseError::MissingToken);
            }
            match SideEffectTransform::parse(&node.children[0]) {
                Ok(p) => Ok(TransformationClass::SideEffect(p)),
                Err(e) => Err(e),
            }
        } else {
            Err(ParseError::UnexpectedToken)
        }
    }
}

impl Pipeline {
    pub fn parse(node: &ParseNode) -> (r: Result<Pipeline, ParseError>)
        ensures
            match r {
                Ok(p) => pipeline_spec(*node) == Ok::<_, ParseError>(
                    (source_view(p.source), p.transforms@),
                ),
                Err(e) => pipeline_spec(*node) == Err::<
                    ((Seq<char>, Option<Seq<char>>), Seq<TransformationClass>),
                    _,
                >(e),
            },
    {
        if node.rule != Rule::Pipeline {
            return Err(ParseError::UnexpectedToken);
        }
        if node.children.len() == 0 {
            return Err(ParseError::MissingToken);
        }
        let parsed = Source::parse(&node.children[0]);
        let source = match parsed {
            Ok(s) => s,
            Err(e) => {
                return Err(e);
            },
        };
        let ghost kids = node.children@;
        assert(source_spec(kids[0]) == Ok::<_, ParseError>(source_view(source)));
        let mut transforms: Vec<TransformationClass> = Vec::new();
        let mut i: usize = 1;
        while i < node.children.len()
            invariant
                1 <= i <= node.children.len(),
                kids == node.children@,
                node.rule == Rule::Pipeline,
                source_spec(kids[0]) == Ok::<_, ParseError>(source_view(source)),
                transforms_spec(kids.subrange(1, i as int)) == Ok::<_, ParseError>(transforms@),
            decreases node.children.len() - i,
        {
            let t = match TransformationClass::parse(&node.children[i]) {
                Ok(t) => t,
                Err(e) => {
                    proof {
                        assert(kids.drop_first().subrange(0, i - 1) =~= kids.subrange(1, i as int));
                        assert(kids.drop_first()[i - 1] == kids[i as int]);
                        lemma_transforms_prefix_error(kids.drop_first(), (i - 1) as int);
                    }
                    return Err(e);
                },
            };
            proof {
                lemma_transforms_extend(kids.subrange(1, i as int), kids[i as int]);
                assert(kids.subrange(1, i as int).push(kids[i as int]) =~= kids.subrange(1, i + 1));
            }
            transforms.push(t);
            i = i + 1;
        }
        assert(kids.subrange(1, kids.len() as int) =~= kids.drop_first());
        Ok(Pipeline { source, transforms })
    }
}

impl Query {
    pub fn parse(node: &ParseNode) -> (r: Result<Query, ParseError>)
        ensures
            match r {
                Ok(q) => query_spec(*node) == Ok::<_, ParseError>(
                    (source_view(q.pipeline.source), q.pipeline.transforms@),
                ),
                Err(e) => query_spec(*node) == Err::<
                    ((Seq<char>, Option<Seq<char>>), Seq<TransformationClass>),
                    _,
                >(e),
            },
    {
        if node.rule != Rule::Query {
            return Err(ParseError::UnexpectedToken);
        }
        if node.children.len() == 0 {
            return Err(ParseError::MissingToken);
        }
        match Pipeline::parse(&node.children[0]) {
            Ok(pipeline) => Ok(Query { pipeline }),
            Err(e) => Err(e),
        }
    }
}

/// Reading one more transformation after a prefix that read.
proof fn lemma_transforms_extend(nodes: Seq<ParseNode>, last: ParseNode)
    requires
        transforms_spec(nodes) is Ok,
        transform_spec(last) is Ok,
    ensures
        transforms_spec(nodes.push(last)) == Ok::<_, ParseError>(
            transforms_spec(nodes)->Ok_0.push(transform_spec(last)->Ok_0),
        ),
    decreases nodes.len(),
{
    let t = transform_spec(last)->Ok_0;
    if nodes.len() == 0 {
        let one = nodes.push(last);
        assert(one.drop_first() =~= Seq::<ParseNode>::empty());
        assert(transforms_spec(one.drop_first()) == Ok::<_, ParseError>(Seq::<TransformationClass>::empty()));
        assert(one[0] == last);
        assert(seq![t] + Seq::<TransformationClass>::empty() =~= Seq::<TransformationClass>::empty().push(t));
    } else {
        lemma_transforms_extend(nodes.drop_first(), last);
        assert(nodes.push(last).drop_first() =~= nodes.drop_first().push(last));
        let t0 = transform_spec(nodes[0])->Ok_0;
        let rest = transforms_spec(nodes.drop_first())->Ok_0;
        assert(seq![t0] + rest.push(transform_spec(last)->Ok_0) =~= (seq![t0] + rest).push(transform_spec(last)->Ok_0));
    }
}

/// A prefix that reads, followed by a node that does not, makes the whole
/// fail with that node's error.
proof fn lemma_transforms_prefix_error(nodes: Seq<ParseNode>, k: int)
    requires
        0 <= k < nodes.len(),
        transforms_spec(nodes.subrange(0, k)) is Ok,
        transform_spec(nodes[k]) is Err,
    ensures
        transforms_spec(nodes) == Err::<Seq<TransformationClass>, _>(transform_spec(nodes[k])->Err_0),
    decreases k,
{
    if k > 0 {
        assert(nodes.subrange(0, k).drop_first() =~= nodes.drop_first().subrange(0, k - 1));
        assert(nodes.subrange(0, k)[0] == nodes[0]);
        lemma_transforms_prefix_error(nodes.drop_first(), k - 1);
    }
}

} // verus!
