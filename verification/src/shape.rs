//! The declared shape of a cube — one dimension per `sh:path`, folded from
//! the bindings of one bound query — and the three-step rule that admits a
//! dimension: declared → accepted; undeclared → one bound `ASK`; the
//! `ASK`'s `false` → absent.

use vstd::prelude::*;
use vstd::string::StringExecFns;

use crate::backend::{boolean, boolean_spec, Request};
use crate::domain::{
    choose_label, choose_label_spec, opt_seq, pairs_view, text, text_spec, upstream, with_label,
    PREFIXES,
};
use crate::json::{fields_view, items_view, jopt, jstr, obj, opt_view, push_field, Json, JsonV};
use crate::text::{ends_with, has_prefix, has_suffix, starts_with, str_eq};
use crate::tools::{first_of, second_of};

verus! {

/// One dimension as the shape declares it.
pub struct ShapeDimension {
    pub dimension: String,
    pub names: Vec<(String, String)>,
    pub node_kind: Option<String>,
    pub datatype: Option<String>,
    pub scale: Option<String>,
    pub dimension_class: Option<String>,
    pub min_count: Option<String>,
    pub max_count: Option<String>,
    pub unit: Option<String>,
    /// Does the shape close this dimension with `sh:in`? The members are
    /// not read here; `dimension_values` reads them, capped.
    pub enumerated: bool,
}

/// The model of a [`ShapeDimension`].
pub struct DimV {
    pub dimension: Seq<char>,
    pub names: Seq<(Seq<char>, Seq<char>)>,
    pub node_kind: Option<Seq<char>>,
    pub datatype: Option<Seq<char>>,
    pub scale: Option<Seq<char>>,
    pub dimension_class: Option<Seq<char>>,
    pub min_count: Option<Seq<char>>,
    pub max_count: Option<Seq<char>>,
    pub unit: Option<Seq<char>>,
    pub enumerated: bool,
}

impl View for ShapeDimension {
    type V = DimV;

    open spec fn view(&self) -> DimV {
        DimV {
            dimension: self.dimension@,
            names: pairs_view(self.names@),
            node_kind: opt_seq(self.node_kind),
            datatype: opt_seq(self.datatype),
            scale: opt_seq(self.scale),
            dimension_class: opt_seq(self.dimension_class),
            min_count: opt_seq(self.min_count),
            max_count: opt_seq(self.max_count),
            unit: opt_seq(self.unit),
            enumerated: self.enumerated,
        }
    }
}

/// The model of a list of dimensions.
pub open spec fn dims_view(v: Seq<ShapeDimension>) -> Seq<DimV> {
    v.map_values(|d: ShapeDimension| d@)
}

// --- the shape query and its fold ------------------------------------------

pub open spec fn shape_query_spec(cube: Seq<char>) -> Seq<char> {
    PREFIXES@ + "SELECT ?dim ?name ?nameLang ?nodeKind ?datatype ?scale ?class ?minCount ?maxCount ?unit ?inList WHERE {\n<"@
        + cube + "> cube:observationConstraint ?shape . ?shape sh:property ?prop . ?prop sh:path ?dim .\nOPTIONAL { ?prop schema:name ?name . BIND(LANG(?name) AS ?nameLang) }\nOPTIONAL { ?prop sh:nodeKind ?nodeKind }\nOPTIONAL { ?prop sh:datatype ?datatype }\nOPTIONAL { ?prop qudt:scaleType ?scale }\nOPTIONAL { ?prop a ?class }\nOPTIONAL { ?prop sh:minCount ?minCount }\nOPTIONAL { ?prop sh:maxCount ?maxCount }\nOPTIONAL { ?prop qudt:hasUnit ?unit }\nOPTIONAL { ?prop sh:in ?inList }\n} ORDER BY ?dim"@
}

/// The query for the declared shape of one cube.
pub fn shape_query(cube: &str) -> (r: String)
    ensures
        r@ == shape_query_spec(cube@),
{
    let mut q = String::from_str(PREFIXES);
    q.append("SELECT ?dim ?name ?nameLang ?nodeKind ?datatype ?scale ?class ?minCount ?maxCount ?unit ?inList WHERE {\n<");
    q.append(cube);
    q.append("> cube:observationConstraint ?shape . ?shape sh:property ?prop . ?prop sh:path ?dim .\nOPTIONAL { ?prop schema:name ?name . BIND(LANG(?name) AS ?nameLang) }\nOPTIONAL { ?prop sh:nodeKind ?nodeKind }\nOPTIONAL { ?prop sh:datatype ?datatype }\nOPTIONAL { ?prop qudt:scaleType ?scale }\nOPTIONAL { ?prop a ?class }\nOPTIONAL { ?prop sh:minCount ?minCount }\nOPTIONAL { ?prop sh:maxCount ?maxCount }\nOPTIONAL { ?prop qudt:hasUnit ?unit }\nOPTIONAL { ?prop sh:in ?inList }\n} ORDER BY ?dim");
    q
}

/// Where `dim` sits in `acc`; `acc.len()` when it is new.
pub open spec fn dim_pos(acc: Seq<DimV>, dim: Seq<char>) -> int
    decreases acc.len(),
{
    if acc.len() == 0 {
        0
    } else if acc[0].dimension == dim {
        0
    } else {
        1 + dim_pos(acc.drop_first(), dim)
    }
}

proof fn lemma_dim_pos(acc: Seq<DimV>, dim: Seq<char>, k: int)
    requires
        0 <= k <= acc.len(),
        forall|j: int| 0 <= j < k ==> (#[trigger] acc[j]).dimension != dim,
        k == acc.len() || acc[k].dimension == dim,
    ensures
        dim_pos(acc, dim) == k,
    decreases acc.len(),
{
    if acc.len() > 0 && acc[0].dimension != dim {
        let t = acc.drop_first();
        assert forall|j: int| 0 <= j < k - 1 implies (#[trigger] t[j]).dimension != dim by {
            assert(t[j] == acc[j + 1]);
        }
        if k - 1 < t.len() {
            assert(t[k - 1] == acc[k]);
        }
        lemma_dim_pos(t, dim, k - 1);
    }
}

/// A present value kept, an absent one filled from the binding.
pub open spec fn or_text(o: Option<Seq<char>>, b: JsonV, var: Seq<char>) -> Option<Seq<char>> {
    match o {
        Some(v) => Some(v),
        None => text_spec(b, var),
    }
}

/// A dimension with what one more binding says of it: a new name joins,
/// an absent attribute is filled, a `cube.link` class replaces the one
/// before, and an `sh:in` marks it enumerated.
pub open spec fn absorb(d: DimV, b: JsonV) -> DimV {
    DimV {
        dimension: d.dimension,
        names: with_label(d.names, b, "name"@, "nameLang"@),
        node_kind: or_text(d.node_kind, b, "nodeKind"@),
        datatype: or_text(d.datatype, b, "datatype"@),
        scale: or_text(d.scale, b, "scale"@),
        dimension_class: match text_spec(b, "class"@) {
            Some(c) => if has_prefix(c, "https://cube.link/"@) {
                Some(c)
            } else {
                d.dimension_class
            },
            None => d.dimension_class,
        },
        min_count: or_text(d.min_count, b, "minCount"@),
        max_count: or_text(d.max_count, b, "maxCount"@),
        unit: or_text(d.unit, b, "unit"@),
        enumerated: d.enumerated || text_spec(b, "inList"@) is Some,
    }
}

/// A dimension nothing has been said of yet.
pub open spec fn fresh(dim: Seq<char>) -> DimV {
    DimV {
        dimension: dim,
        names: Seq::empty(),
        node_kind: None,
        datatype: None,
        scale: None,
        dimension_class: None,
        min_count: None,
        max_count: None,
        unit: None,
        enumerated: false,
    }
}

/// `acc` with what one binding says.
pub open spec fn add_dim(acc: Seq<DimV>, b: JsonV) -> Seq<DimV> {
    match text_spec(b, "dim"@) {
        None => acc,
        Some(dim) => {
            let k = dim_pos(acc, dim);
            let acc1 = if k == acc.len() {
                acc.push(fresh(dim))
            } else {
                acc
            };
            acc1.update(k, absorb(acc1[k], b))
        },
    }
}

/// The declared shape: one dimension per path, in first-seen order.
pub open spec fn fold_shape(bs: Seq<JsonV>) -> Seq<DimV>
    decreases bs.len(),
{
    if bs.len() == 0 {
        Seq::empty()
    } else {
        add_dim(fold_shape(bs.drop_last()), bs.last())
    }
}

fn or_text_of(o: Option<String>, b: &Json, var: &str) -> (r: Option<String>)
    ensures
        opt_seq(r) == or_text(opt_seq(o), b@, var@),
{
    match o {
        Some(v) => Some(v),
        None => text(b, var),
    }
}

fn absorb_into(d: &mut ShapeDimension, b: &Json)
    ensures
        final(d)@ == absorb(old(d)@, b@),
{
    crate::domain::add_label(&mut d.names, b, "name", "nameLang");
    let node_kind = d.node_kind.take();
    d.node_kind = or_text_of(node_kind, b, "nodeKind");
    let datatype = d.datatype.take();
    d.datatype = or_text_of(datatype, b, "datatype");
    let scale = d.scale.take();
    d.scale = or_text_of(scale, b, "scale");
    let min_count = d.min_count.take();
    d.min_count = or_text_of(min_count, b, "minCount");
    let max_count = d.max_count.take();
    d.max_count = or_text_of(max_count, b, "maxCount");
    let unit = d.unit.take();
    d.unit = or_text_of(unit, b, "unit");
    if let Some(class) = text(b, "class") {
        if starts_with(class.as_str(), "https://cube.link/") {
            d.dimension_class = Some(class);
        }
    }
    if text(b, "inList").is_some() {
        d.enumerated = true;
    }
}

fn add_dim_of(acc: &mut Vec<ShapeDimension>, b: &Json)
    ensures
        dims_view(final(acc)@) == add_dim(dims_view(old(acc)@), b@),
{
    let dim = match text(b, "dim") {
        Some(d) => d,
        None => { return; },
    };
    let ghost old_v = dims_view(acc@);
    let mut k: usize = 0;
    let mut found = false;
    while !found && k < acc.len()
        invariant
            0 <= k <= acc@.len(),
            acc@ == old(acc)@,
            old_v == dims_view(acc@),
            forall|j: int| 0 <= j < k ==> (#[trigger] old_v[j]).dimension != dim@,
            found ==> k < acc@.len() && old_v[k as int].dimension == dim@,
        decreases acc@.len() - k + (if found { 0int } else { 1int }),
    {
        if str_eq(acc[k].dimension.as_str(), dim.as_str()) {
            found = true;
        } else {
            k = k + 1;
        }
    }
    proof {
        lemma_dim_pos(old_v, dim@, k as int);
    }
    if k == acc.len() {
        let ghost dv = dim@;
        let fresh_names: Vec<(String, String)> = Vec::new();
        assert(pairs_view(fresh_names@) =~= Seq::empty());
        acc.push(ShapeDimension {
            dimension: dim,
            names: fresh_names,
            node_kind: None,
            datatype: None,
            scale: None,
            dimension_class: None,
            min_count: None,
            max_count: None,
            unit: None,
            enumerated: false,
        });
        assert(dims_view(acc@) =~= old_v.push(fresh(dv)));
    }
    let ghost mid = dims_view(acc@);
    absorb_into(&mut acc[k], b);
    assert(dims_view(acc@) =~= mid.update(k as int, absorb(mid[k as int], b@)));
}

/// The declared shape a page of shape bindings gives.
pub fn collect_shape(bs: &Vec<Json>) -> (r: Vec<ShapeDimension>)
    ensures
        dims_view(r@) == fold_shape(items_view(bs@)),
{
    let ghost items = items_view(bs@);
    let mut r: Vec<ShapeDimension> = Vec::new();
    let mut i: usize = 0;
    assert(dims_view(r@) =~= Seq::empty());
    while i < bs.len()
        invariant
            0 <= i <= bs@.len(),
            items == items_view(bs@),
            dims_view(r@) == fold_shape(items.take(i as int)),
        decreases bs@.len() - i,
    {
        assert(items.take(i + 1).drop_last() =~= items.take(i as int));
        assert(items.take(i + 1).last() == bs@[i as int]@);
        add_dim_of(&mut r, &bs[i]);
        i = i + 1;
    }
    assert(items.take(bs@.len() as int) =~= items);
    r
}

// --- a dimension as an answer serves it ---------------------------------------

/// The kind a shape answer serves: the declared class, or `unknown`.
pub open spec fn kind_of(class: Option<Seq<char>>) -> Seq<char> {
    match class {
        Some(c) => if has_suffix(c, "KeyDimension"@) {
            "key"@
        } else if has_suffix(c, "MeasureDimension"@) {
            "measure"@
        } else if has_suffix(c, "AttributeDimension"@) {
            "attribute"@
        } else {
            "unknown"@
        },
        None => "unknown"@,
    }
}

fn kind_str(class: &Option<String>) -> (r: &'static str)
    ensures
        r@ == kind_of(opt_seq(*class)),
{
    match class {
        Some(c) => if ends_with(c.as_str(), "KeyDimension") {
            "key"
        } else if ends_with(c.as_str(), "MeasureDimension") {
            "measure"
        } else if ends_with(c.as_str(), "AttributeDimension") {
            "attribute"
        } else {
            "unknown"
        },
        None => "unknown",
    }
}

/// One dimension as `describe_cube` serves it.
pub open spec fn dim_json(d: DimV, lang: Seq<char>) -> JsonV {
    let name = choose_label_spec(d.names, Some(lang));
    JsonV::Obj(seq![
        ("dimension"@, JsonV::Str(d.dimension)),
        ("name"@, opt_view(first_of(name))),
        ("name_lang"@, opt_view(second_of(name))),
        ("node_kind"@, opt_view(d.node_kind)),
        ("datatype"@, opt_view(d.datatype)),
        ("scale"@, opt_view(d.scale)),
        ("dimension_kind"@, JsonV::Str(kind_of(d.dimension_class))),
        ("optional"@, JsonV::Bool(d.min_count == Some("0"@))),
        ("max_count"@, opt_view(d.max_count)),
        ("unit"@, opt_view(d.unit)),
        ("enumerated"@, JsonV::Bool(d.enumerated)),
    ])
}

impl ShapeDimension {
    /// The kind a shape answer serves: the declared class, or the honest
    /// `unknown`.
    pub fn kind(&self) -> (r: &'static str)
        ensures
            r@ == kind_of(self@.dimension_class),
    {
        kind_str(&self.dimension_class)
    }

    /// The dimension as `describe_cube` serves it.
    pub fn json(&self, lang: &str) -> (j: Json)
        ensures
            j@ == dim_json(self@, lang@),
    {
        let name = choose_label(self.names.as_slice(), Some(lang));
        let optional = match &self.min_count {
            Some(m) => str_eq(m.as_str(), "0"),
            None => false,
        };
        let mut f: Vec<(String, Json)> = Vec::new();
        push_field(&mut f, "dimension", jstr(self.dimension.as_str()));
        push_field(&mut f, "name", match &name { Some(x) => Json::Str(x.0.clone()), None => Json::Null });
        push_field(&mut f, "name_lang", match &name { Some(x) => Json::Str(x.1.clone()), None => Json::Null });
        push_field(&mut f, "node_kind", jopt(&self.node_kind));
        push_field(&mut f, "datatype", jopt(&self.datatype));
        push_field(&mut f, "scale", jopt(&self.scale));
        push_field(&mut f, "dimension_kind", jstr(kind_str(&self.dimension_class)));
        push_field(&mut f, "optional", Json::Bool(optional));
        push_field(&mut f, "max_count", jopt(&self.max_count));
        push_field(&mut f, "unit", jopt(&self.unit));
        push_field(&mut f, "enumerated", Json::Bool(self.enumerated));
        assert(fields_view(f@) =~= match dim_json(self@, lang@) {
            JsonV::Obj(x) => x,
            _ => Seq::empty(),
        });
        obj(f)
    }
}

// --- P12: the three-step rule -------------------------------------------------

/// Does the shape declare `dim`?
pub open spec fn declares(shape: Seq<DimV>, dim: Seq<char>) -> bool {
    exists|i: int| 0 <= i < shape.len() && (#[trigger] shape[i]).dimension == dim
}

/// Does the shape close `dim` with `sh:in`?
pub open spec fn closes(shape: Seq<DimV>, dim: Seq<char>) -> bool {
    exists|i: int| 0 <= i < shape.len() && (#[trigger] shape[i]).dimension == dim && shape[i].enumerated
}

pub fn is_declared(shape: &Vec<ShapeDimension>, dim: &str) -> (r: bool)
    ensures
        r == declares(dims_view(shape@), dim@),
{
    let ghost sv = dims_view(shape@);
    let mut i: usize = 0;
    while i < shape.len()
        invariant
            0 <= i <= shape@.len(),
            sv == dims_view(shape@),
            forall|j: int| 0 <= j < i ==> (#[trigger] sv[j]).dimension != dim@,
        decreases shape@.len() - i,
    {
        if str_eq(shape[i].dimension.as_str(), dim) {
            assert(sv[i as int].dimension == dim@);
            return true;
        }
        i = i + 1;
    }
    false
}

pub fn is_enumerated(shape: &Vec<ShapeDimension>, dim: &str) -> (r: bool)
    ensures
        r == closes(dims_view(shape@), dim@),
{
    let ghost sv = dims_view(shape@);
    let mut i: usize = 0;
    while i < shape.len()
        invariant
            0 <= i <= shape@.len(),
            sv == dims_view(shape@),
            forall|j: int| 0 <= j < i ==> !((#[trigger] sv[j]).dimension == dim@ && sv[j].enumerated),
        decreases shape@.len() - i,
    {
        if str_eq(shape[i].dimension.as_str(), dim) && shape[i].enumerated {
            assert(sv[i as int].dimension == dim@ && sv[i as int].enumerated);
            return true;
        }
        i = i + 1;
    }
    false
}

/// What the three steps decided about one dimension.
#[derive(PartialEq, Eq, Structural, Clone, Copy)]
pub enum Gate {
    /// The shape declares it — accepted, no request was made.
    Declared,
    /// Undeclared, and the bound ASK found it in the observations.
    Undeclared,
    /// The bound ASK found nothing — `not-found`, because a request WAS
    /// made to find that out.
    Absent,
}

pub open spec fn gate_query_spec(cube: Seq<char>, dim: Seq<char>) -> Seq<char> {
    PREFIXES@ + "ASK { <"@ + cube + "> cube:observationSet ?set . ?set cube:observation ?o . ?o <"@ + dim + "> ?v }"@
}

/// `ask_dimension:<cube>:<dimension>`.
pub open spec fn gate_key(cube: Seq<char>, dim: Seq<char>) -> Seq<char> {
    "ask_dimension:"@ + cube + ":"@ + dim
}

/// The bound ASK of step (b).
pub open spec fn gate_request(req: Request, cube: Seq<char>, dim: Seq<char>) -> bool {
    req.key@ == gate_key(cube, dim) && req.query@ == gate_query_spec(cube, dim) && !req.wide
}

/// P12, step (a): a declared dimension is accepted and costs no request
/// (`None`); any other costs the one bound ASK it answers with.
pub fn dimension_gate(cube: &str, dimension: &str, declared: &Vec<ShapeDimension>) -> (r: Option<Request>)
    ensures
        r is None <==> declares(dims_view(declared@), dimension@),
        r matches Some(req) ==> gate_request(req, cube@, dimension@),
{
    if is_declared(declared, dimension) {
        return None;
    }
    let mut q = String::from_str(PREFIXES);
    q.append("ASK { <");
    q.append(cube);
    q.append("> cube:observationSet ?set . ?set cube:observation ?o . ?o <");
    q.append(dimension);
    q.append("> ?v }");
    let mut key = String::from_str("ask_dimension:");
    key.append(cube);
    key.append(":");
    key.append(dimension);
    Some(Request { key, query: q, wide: false })
}

/// P12, steps (b) and (c): what the bound ASK answered.
pub open spec fn gate_answer_spec(value: JsonV) -> Result<Gate, JsonV> {
    match boolean_spec(value) {
        Some(true) => Ok(Gate::Undeclared),
        Some(false) => Ok(Gate::Absent),
        None => Err(crate::domain::error_detail("upstream-unavailable"@, "upstream-unavailable: no boolean in the answer"@)),
    }
}

pub fn gate_answer(value: &Json) -> (r: Result<Gate, Json>)
    ensures
        match r {
            Ok(g) => gate_answer_spec(value@) == Ok::<Gate, JsonV>(g),
            Err(j) => gate_answer_spec(value@) == Err::<Gate, JsonV>(j@),
        },
{
    match boolean(value) {
        Ok(true) => Ok(Gate::Undeclared),
        Ok(false) => Ok(Gate::Absent),
        Err(e) => Err(upstream(e.as_str())),
    }
}

// --- the carried sample ---------------------------------------------------------

pub open spec fn sample_query_spec(cube: Seq<char>) -> Seq<char> {
    PREFIXES@ + "SELECT DISTINCT ?p WHERE {\n{ SELECT ?obs WHERE { <"@ + cube
        + "> cube:observationSet ?set . ?set cube:observation ?obs } LIMIT 1 }\n?obs ?p ?v .\n} ORDER BY ?p"@
}

/// The query for the predicates ONE observation of a cube carries.
pub fn sample_query(cube: &str) -> (r: String)
    ensures
        r@ == sample_query_spec(cube@),
{
    let mut q = String::from_str(PREFIXES);
    q.append("SELECT DISTINCT ?p WHERE {\n{ SELECT ?obs WHERE { <");
    q.append(cube);
    q.append("> cube:observationSet ?set . ?set cube:observation ?obs } LIMIT 1 }\n?obs ?p ?v .\n} ORDER BY ?p");
    q
}

/// The stated `var` of every binding that has one, in order.
pub open spec fn texts_of(bs: Seq<JsonV>, var: Seq<char>) -> Seq<Seq<char>>
    decreases bs.len(),
{
    if bs.len() == 0 {
        Seq::empty()
    } else {
        match text_spec(bs.last(), var) {
            Some(t) => texts_of(bs.drop_last(), var).push(t),
            None => texts_of(bs.drop_last(), var),
        }
    }
}

pub fn texts(bs: &Vec<Json>, var: &str) -> (r: Vec<String>)
    ensures
        crate::text::views(r@) == texts_of(items_view(bs@), var@),
{
    let ghost items = items_view(bs@);
    let mut r: Vec<String> = Vec::new();
    let mut i: usize = 0;
    assert(crate::text::views(r@) =~= Seq::empty());
    while i < bs.len()
        invariant
            0 <= i <= bs@.len(),
            items == items_view(bs@),
            crate::text::views(r@) == texts_of(items.take(i as int), var@),
        decreases bs@.len() - i,
    {
        assert(items.take(i + 1).drop_last() =~= items.take(i as int));
        assert(items.take(i + 1).last() == bs@[i as int]@);
        if let Some(t) = text(&bs[i], var) {
            let ghost before = crate::text::views(r@);
            let ghost tv = t@;
            r.push(t);
            assert(crate::text::views(r@) =~= before.push(tv));
        }
        i = i + 1;
    }
    assert(items.take(bs@.len() as int) =~= items);
    r
}

} // verus!
