//! Tool documentation: each tool's description (and, when long, its input
//! schema) moves into the system text that is rendered, and the tool entry
//! keeps a short pointer.

use vstd::prelude::*;
use vstd::string::StringSliceAdditionalSpecFns;
use crate::render::views;
use crate::json::{
    Json,
    JsonV,
    jget,
    jinsert,
    field_str_or,
    lit,
    lemma_array_view,
    lemma_array_view_ops,
    lemma_fields_view,
    fields_view,
    array_view,
    json_view,
};
use crate::text::push_all;
use crate::blocks::{key_of, lemma_empty_literal, field_or_copy, str_json};
use crate::system::{join, paragraph_sep};

verus! {

/// The schema of a tool that gets printed: its `input_schema` when that is
/// an object.
pub open spec fn printable_schema(tool: JsonV) -> Option<JsonV> {
    match jget(tool, key_of("input_schema")) {
        Some(JsonV::Object(m)) => Some(JsonV::Object(m)),
        _ => None,
    }
}

/// Whether compressing `tool` uses a printed schema.
pub open spec fn needs_schema_text(tool: JsonV, schemas: bool) -> bool {
    schemas && tool is Object && printable_schema(tool) is Some
}

/// The schemas to print for `tools`, in order.
pub open spec fn schemas_needed(tools: Seq<JsonV>, schemas: bool) -> Seq<JsonV>
    decreases tools.len(),
{
    if tools.len() == 0 {
        Seq::empty()
    } else if needs_schema_text(tools.last(), schemas) {
        schemas_needed(tools.drop_last(), schemas).push(printable_schema(tools.last()).unwrap())
    } else {
        schemas_needed(tools.drop_last(), schemas)
    }
}

pub open spec fn tool_heading(name: Seq<u8>, desc: Seq<u8>) -> Seq<u8> {
    "### Tool: ".spec_bytes() + name + "\n".spec_bytes() + desc
}

pub open spec fn description_stub(name: Seq<u8>) -> Seq<u8> {
    "See `".spec_bytes() + name + "` docs in system context image.".spec_bytes()
}

pub open spec fn schema_section(name: Seq<u8>, schema: Seq<u8>) -> Seq<u8> {
    "\n#### Schema for `".spec_bytes() + name + "`\n```json\n".spec_bytes() + schema
        + "\n```".spec_bytes()
}

pub open spec fn object_schema_stub() -> JsonV {
    JsonV::Object(seq![(key_of("type"), JsonV::Str(key_of("object")))])
}

/// One tool object: its documentation (heading with the description, and
/// the printed schema when longer than 200 bytes), the tool with a long
/// description (over 80 bytes) replaced by a pointer to the image and a
/// documented schema replaced by `{"type": "object"}`, and whether the
/// schema was replaced. `pretty` is the printed schema when one is used.
pub open spec fn compress_tool_v(tool: JsonV, schemas: bool, pretty: Seq<u8>) -> (
    JsonV,
    Seq<u8>,
    bool,
) {
    let name = field_str_or(tool, key_of("name"), key_of("?"));
    let desc = field_str_or(tool, key_of("description"), Seq::empty());
    let with_schema = needs_schema_text(tool, schemas) && pretty.len() > 200;
    let t1 = if desc.len() > 80 {
        jinsert(tool, key_of("description"), JsonV::Str(description_stub(name)))
    } else {
        tool
    };
    let t2 = if with_schema {
        jinsert(t1, key_of("input_schema"), object_schema_stub())
    } else {
        t1
    };
    (t2, tool_doc_v(name, desc, with_schema, pretty), with_schema)
}

/// Compresses every tool object in turn; the printed schemas `texts` are
/// used in order by the tools that need one. Gives the new tools, the
/// non-empty documentation pieces and the number of replaced schemas.
pub open spec fn compress_tools_v(tools: Seq<JsonV>, texts: Seq<Seq<u8>>, schemas: bool) -> (
    Seq<JsonV>,
    Seq<Seq<u8>>,
    nat,
)
    decreases tools.len(),
{
    if tools.len() == 0 {
        (Seq::empty(), Seq::empty(), 0)
    } else {
        let prev = compress_tools_v(tools.drop_last(), texts, schemas);
        let t = tools.last();
        if !(t is Object) {
            (prev.0.push(t), prev.1, prev.2)
        } else {
            let k = schemas_needed(tools.drop_last(), schemas).len() as int;
            let pretty = if needs_schema_text(t, schemas) {
                texts[k]
            } else {
                Seq::empty()
            };
            let c = compress_tool_v(t, schemas, pretty);
            (
                prev.0.push(c.0),
                if c.1.len() > 0 {
                    prev.1.push(c.1)
                } else {
                    prev.1
                },
                prev.2 + if c.2 {
                    1nat
                } else {
                    0nat
                },
            )
        }
    }
}

pub open spec fn tool_section(docs: Seq<Seq<u8>>) -> Seq<u8> {
    "\n\n# Tool Documentation\n\n".spec_bytes() + join(docs, paragraph_sep())
}

/// The tools step on a request: with tool compression on and a `tools`
/// array, the compressed tools replace it and the documentation section
/// (empty when no tool has documentation) goes to the system text.
pub open spec fn tools_step(req: JsonV, tools_on: bool, schemas: bool, texts: Seq<Seq<u8>>) -> (
    JsonV,
    Seq<u8>,
    nat,
) {
    if tools_on {
        match jget(req, key_of("tools")) {
            Some(JsonV::Array(tools)) => {
                let c = compress_tools_v(tools, texts, schemas);
                (
                    jinsert(req, key_of("tools"), JsonV::Array(c.0)),
                    if c.1.len() > 0 {
                        tool_section(c.1)
                    } else {
                        Seq::empty()
                    },
                    c.2,
                )
            },
            _ => (req, Seq::empty(), 0),
        }
    } else {
        (req, Seq::empty(), 0)
    }
}

/// The schemas of a request's tools that the tools step prints, in order.
pub open spec fn request_schemas(req: JsonV, tools_on: bool, schemas: bool) -> Seq<JsonV> {
    if tools_on {
        match jget(req, key_of("tools")) {
            Some(JsonV::Array(tools)) => schemas_needed(tools, schemas),
            _ => Seq::empty(),
        }
    } else {
        Seq::empty()
    }
}

fn printable_schema_exec(tool: &Json) -> (r: Option<&Json>)
    ensures
        match r {
            Some(s) => printable_schema(tool@) == Some(s@),
            None => printable_schema(tool@) is None,
        },
{
    match tool.get(lit("input_schema").as_slice()) {
        Some(s) => {
            if s.is_object() {
                Some(s)
            } else {
                None
            }
        },
        None => None,
    }
}

/// The documentation of a tool: heading with description (when the
/// description is non-empty), then the printed schema when it is used.
pub open spec fn tool_doc_v(name: Seq<u8>, desc: Seq<u8>, with_schema: bool, pretty: Seq<u8>) -> Seq<u8> {
    let d1 = if desc.len() > 0 {
        tool_heading(name, desc)
    } else {
        Seq::empty()
    };
    if with_schema {
        d1 + schema_section(name, pretty)
    } else {
        d1
    }
}

fn tool_doc(name: &[u8], desc: &[u8], with_schema: bool, pretty: &[u8]) -> (doc: Vec<u8>)
    ensures
        doc@ == tool_doc_v(name@, desc@, with_schema, pretty@),
{
    let mut doc: Vec<u8> = Vec::new();
    if desc.len() > 0 {
        doc = lit("### Tool: ");
        push_all(&mut doc, name);
        push_all(&mut doc, lit("\n").as_slice());
        push_all(&mut doc, desc);
        assert(doc@ =~= tool_heading(name@, desc@));
    }
    let ghost d1 = doc@;
    if with_schema {
        push_all(&mut doc, lit("\n#### Schema for `").as_slice());
        push_all(&mut doc, name);
        push_all(&mut doc, lit("`\n```json\n").as_slice());
        push_all(&mut doc, pretty);
        push_all(&mut doc, lit("\n```").as_slice());
        assert(doc@ =~= d1 + schema_section(name@, pretty@));
    }
    doc
}

fn object_schema_stub_exec() -> (r: Json)
    ensures
        r@ == object_schema_stub(),
{
    let mut f: Vec<(Vec<u8>, Json)> = Vec::new();
    f.push((lit("type"), str_json("object")));
    proof {
        lemma_fields_view(f@);
        assert(fields_view(f@) =~= seq![(key_of("type"), JsonV::Str(key_of("object")))]);
    }
    Json::Object(f)
}

/// Compresses one tool object in place; gives its documentation and whether
/// its schema was replaced.
fn compress_tool(tool: &mut Json, schemas: bool, pretty: &[u8]) -> (r: (Vec<u8>, bool))
    requires
        old(tool)@ is Object,
    ensures
        (final(tool)@, r.0@, r.1) == compress_tool_v(old(tool)@, schemas, pretty@),
{
    let ghost t0 = tool@;
    proof {
        lemma_empty_literal();
    }
    let name = field_or_copy(tool, "name", "?");
    let desc = field_or_copy(tool, "description", "");
    let needs = schemas && printable_schema_exec(tool).is_some();
    assert(needs == needs_schema_text(t0, schemas));
    let with_schema = needs && pretty.len() > 200;
    let doc = tool_doc(name.as_slice(), desc.as_slice(), with_schema, pretty);
    if desc.len() > 80 {
        let mut stub = lit("See `");
        push_all(&mut stub, name.as_slice());
        push_all(&mut stub, lit("` docs in system context image.").as_slice());
        assert(stub@ =~= description_stub(name@));
        tool.insert(lit("description"), Json::Str(stub));
    }
    if with_schema {
        tool.insert(lit("input_schema"), object_schema_stub_exec());
    }
    (doc, with_schema)
}

proof fn lemma_schemas_needed_mono(tools: Seq<JsonV>, schemas: bool, i: int, j: int)
    requires
        0 <= i <= j <= tools.len(),
    ensures
        schemas_needed(tools.subrange(0, i), schemas).len() <= schemas_needed(
            tools.subrange(0, j),
            schemas,
        ).len(),
    decreases j - i,
{
    if i < j {
        lemma_schemas_needed_mono(tools, schemas, i, j - 1);
        assert(tools.subrange(0, j).drop_last() == tools.subrange(0, j - 1));
    }
}

/// Compresses every tool object of `tools` in place; gives the documentation
/// pieces and the number of replaced schemas.
fn compress_tools(tools: &mut Vec<Json>, texts: &Vec<Vec<u8>>, schemas: bool) -> (r: (
    Vec<Vec<u8>>,
    usize,
))
    requires
        texts@.len() == schemas_needed(array_view(old(tools)@), schemas).len(),
    ensures
        (array_view(final(tools)@), views(r.0@), r.1 as nat) == compress_tools_v(
            array_view(old(tools)@),
            views(texts@),
            schemas,
        ),
{
    let ghost orig = array_view(tools@);
    let ghost tv = views(texts@);
    proof {
        lemma_array_view(tools@);
        lemma_array_view_ops(tools@);
    }
    let n = tools.len();
    let mut docs: Vec<Vec<u8>> = Vec::new();
    let mut count: usize = 0;
    let mut k: usize = 0;
    let mut i: usize = 0;
    assert(orig.subrange(0, 0) =~= Seq::<JsonV>::empty());
    assert(array_view(tools@).subrange(0, 0) =~= Seq::<JsonV>::empty());
    while i < n
        invariant
            n == tools@.len(),
            orig.len() == n,
            tv == views(texts@),
            texts@.len() == schemas_needed(orig, schemas).len(),
            i <= n,
            count <= i,
            array_view(tools@).subrange(i as int, n as int) == orig.subrange(i as int, n as int),
            ({
                let c = compress_tools_v(orig.subrange(0, i as int), tv, schemas);
                &&& array_view(tools@).subrange(0, i as int) == c.0
                &&& views(docs@) == c.1
                &&& count as nat == c.2
            }),
            k == schemas_needed(orig.subrange(0, i as int), schemas).len(),
        decreases n - i,
    {
        proof {
            lemma_array_view(tools@);
            lemma_array_view_ops(tools@);
            lemma_schemas_needed_mono(orig, schemas, i + 1, n as int);
            assert(orig.subrange(0, n as int) == orig);
            assert(orig.subrange(0, i + 1).drop_last() == orig.subrange(0, i as int));
            assert(orig.subrange(0, i + 1).last() == orig[i as int]);
            assert(orig[i as int] == array_view(tools@).subrange(i as int, n as int)[0]);
        }
        let ghost before = tools@;
        let ghost prev = compress_tools_v(orig.subrange(0, i as int), tv, schemas);
        let mut t = Json::Null;
        std::mem::swap(&mut t, &mut tools[i]);
        let ghost t0 = t@;
        assert(t0 == orig[i as int]);
        let is_obj = t.is_object();
        if is_obj {
            let needs = schemas && printable_schema_exec(&t).is_some();
            assert(needs == needs_schema_text(orig[i as int], schemas));
            assert(needs ==> schemas_needed(orig.subrange(0, i + 1), schemas).len() == k + 1);
            assert(schemas_needed(orig.subrange(0, i + 1), schemas).len() <= schemas_needed(
                orig.subrange(0, n as int),
                schemas,
            ).len());
            assert(schemas_needed(orig.subrange(0, n as int), schemas).len() == texts@.len());
            let empty: Vec<u8> = Vec::new();
            let pretty: &Vec<u8> = if needs {
                &texts[k]
            } else {
                &empty
            };
            let (doc, replaced) = compress_tool(&mut t, schemas, pretty.as_slice());
            if doc.len() > 0 {
                docs.push(doc);
            }
            let n_texts = texts.len();
            assert(needs ==> k + 1 <= n_texts);
            if replaced {
                count = count + 1;
            }
            if needs {
                k = k + 1;
            }
        }
        tools.set(i, t);
        proof {
            lemma_array_view(tools@);
            lemma_array_view(before);
            lemma_array_view_ops(before);
            assert(tools@ == before.update(i as int, t));
            assert(array_view(tools@).subrange(0, i + 1) =~= prev.0.push(t@));
            assert forall|j: int| i < j < n implies #[trigger] array_view(tools@)[j] == orig[j] by {
                assert(array_view(before).subrange(i as int, n as int)[j - i] == orig.subrange(
                    i as int,
                    n as int,
                )[j - i]);
            }
            assert(array_view(tools@).subrange(i + 1, n as int) =~= orig.subrange(
                i + 1,
                n as int,
            ));
        }
        i = i + 1;
    }
    assert(orig.subrange(0, n as int) == orig);
    proof {
        lemma_array_view(tools@);
    }
    assert(array_view(tools@).subrange(0, n as int) == array_view(tools@));
    (docs, count)
}

fn join_exec(parts: &Vec<Vec<u8>>, sep: &[u8]) -> (r: Vec<u8>)
    ensures
        r@ == join(views(parts@), sep@),
{
    let ghost pv = views(parts@);
    let mut r: Vec<u8> = Vec::new();
    let mut i: usize = 0;
    while i < parts.len()
        invariant
            i <= parts@.len(),
            pv == views(parts@),
            r@ == join(pv.subrange(0, i as int), sep@),
        decreases parts@.len() - i,
    {
        assert(pv.subrange(0, i + 1).drop_last() == pv.subrange(0, i as int));
        assert(pv.subrange(0, i + 1).last() == parts@[i as int]@);
        if i > 0 {
            push_all(&mut r, sep);
        }
        push_all(&mut r, parts[i].as_slice());
        i = i + 1;
    }
    assert(pv.subrange(0, parts@.len() as int) == pv);
    r
}

/// Applies the tools step to `req` in place; gives the documentation
/// section for the system text and the number of replaced schemas.
pub(crate) fn tools_step_exec(req: &mut Json, tools_on: bool, schemas: bool, texts: &Vec<Vec<u8>>) -> (r: (
    Vec<u8>,
    usize,
))
    requires
        texts@.len() == request_schemas(old(req)@, tools_on, schemas).len(),
    ensures
        (final(req)@, r.0@, r.1 as nat) == tools_step(old(req)@, tools_on, schemas, views(texts@)),
{
    if !tools_on {
        return (Vec::new(), 0);
    }
    let ghost r0 = req@;
    let key = lit("tools");
    let is_array = match req.get(key.as_slice()) {
        Some(Json::Array(_)) => true,
        _ => false,
    };
    if !is_array {
        return (Vec::new(), 0);
    }
    match req.take(key.as_slice()) {
        Some(Json::Array(mut tools)) => {
            let (docs, count) = compress_tools(&mut tools, texts, schemas);
            req.insert(lit("tools"), Json::Array(tools));
            proof {
                crate::json::lemma_insert_twice(r0, key@, JsonV::Null, json_view(Json::Array(tools)));
            }
            if docs.len() > 0 {
                let mut section = lit("\n\n# Tool Documentation\n\n");
                let joined = join_exec(&docs, lit("\n\n").as_slice());
                push_all(&mut section, joined.as_slice());
                (section, count)
            } else {
                (Vec::new(), count)
            }
        },
        _ => {
            assert(false);
            (Vec::new(), 0)
        },
    }
}

/// The schemas that the tools step of `transform` prints (each tool object
/// whose `input_schema` is an object, in order), for the caller to
/// pretty-print before calling `transform`.
pub fn schemas_to_print(req: &Json, compress_tools: bool, compress_schemas: bool) -> (r: Vec<
    Json,
>)
    ensures
        array_view(r@) == request_schemas(req@, compress_tools, compress_schemas),
{
    let mut r: Vec<Json> = Vec::new();
    if !compress_tools {
        return r;
    }
    match req.get(lit("tools").as_slice()) {
        Some(Json::Array(tools)) => {
            let ghost tv = array_view(tools@);
            proof {
                lemma_array_view(tools@);
            }
            let mut i: usize = 0;
            while i < tools.len()
                invariant
                    i <= tools@.len(),
                    tv == array_view(tools@),
                    tv.len() == tools@.len(),
                    forall|j: int| 0 <= j < tools@.len() ==> #[trigger] tv[j] == tools@[j]@,
                    array_view(r@) == schemas_needed(tv.subrange(0, i as int), compress_schemas),
                decreases tools@.len() - i,
            {
                let t = &tools[i];
                assert(tv.subrange(0, i + 1).drop_last() == tv.subrange(0, i as int));
                assert(tv.subrange(0, i + 1).last() == t@);
                if compress_schemas && t.is_object() {
                    match printable_schema_exec(t) {
                        Some(sch) => {
                            let c = sch.deep_clone();
                            proof {
                                lemma_array_view_ops(r@);
                            }
                            r.push(c);
                        },
                        None => {},
                    }
                }
                i = i + 1;
            }
            assert(tv.subrange(0, tools@.len() as int) == tv);
            r
        },
        _ => r,
    }
}

// ----- laws -----
proof fn lemma_compress_tools_len(tools: Seq<JsonV>, texts: Seq<Seq<u8>>, schemas: bool)
    ensures
        compress_tools_v(tools, texts, schemas).0.len() == tools.len(),
    decreases tools.len(),
{
    if tools.len() > 0 {
        lemma_compress_tools_len(tools.drop_last(), texts, schemas);
    }
}

/// Every tool whose printed schema is longer than 200 bytes gets
/// `{"type": "object"}` as its schema, wherever it stands among the tools
/// (its printed schema is the one at its place among the tools that need
/// one); the tools keep their number and order.
pub proof fn law_long_schemas_stubbed(tools: Seq<JsonV>, texts: Seq<Seq<u8>>, schemas: bool, j: int)
    requires
        0 <= j < tools.len(),
        needs_schema_text(tools[j], schemas),
        texts[schemas_needed(tools.subrange(0, j), schemas).len() as int].len() > 200,
    ensures
        compress_tools_v(tools, texts, schemas).0.len() == tools.len(),
        jget(compress_tools_v(tools, texts, schemas).0[j], key_of("input_schema")) == Some(
            object_schema_stub(),
        ),
    decreases tools.len(),
{
    lemma_compress_tools_len(tools, texts, schemas);
    let prev = compress_tools_v(tools.drop_last(), texts, schemas);
    lemma_compress_tools_len(tools.drop_last(), texts, schemas);
    if j == tools.len() - 1 {
        assert(tools.subrange(0, j) == tools.drop_last());
        let t = tools.last();
        let k = schemas_needed(tools.drop_last(), schemas).len() as int;
        let c = compress_tool_v(t, schemas, texts[k]);
        let name = field_str_or(t, key_of("name"), key_of("?"));
        let desc = field_str_or(t, key_of("description"), Seq::empty());
        let t1 = if desc.len() > 80 {
            jinsert(t, key_of("description"), JsonV::Str(description_stub(name)))
        } else {
            t
        };
        assert(t1 is Object);
        crate::json::lemma_get_insert(t1, key_of("input_schema"), object_schema_stub());
        assert(compress_tools_v(tools, texts, schemas).0[j] == c.0);
    } else {
        assert(tools.drop_last().subrange(0, j) == tools.subrange(0, j));
        assert(tools.drop_last()[j] == tools[j]);
        law_long_schemas_stubbed(tools.drop_last(), texts, schemas, j);
        assert(compress_tools_v(tools, texts, schemas).0[j] == prev.0[j]);
    }
}

/// Number of tools whose printed schema (the one at their place among the
/// tools that need one) is longer than 200 bytes.
pub open spec fn long_schema_count(tools: Seq<JsonV>, texts: Seq<Seq<u8>>, schemas: bool) -> nat
    decreases tools.len(),
{
    if tools.len() == 0 {
        0
    } else {
        long_schema_count(tools.drop_last(), texts, schemas) + if needs_schema_text(
            tools.last(),
            schemas,
        ) && texts[schemas_needed(tools.drop_last(), schemas).len() as int].len() > 200 {
            1nat
        } else {
            0nat
        }
    }
}

/// The count of replaced schemas is the number of tools whose printed
/// schema is longer than 200 bytes: each of them, and only they, counts.
pub proof fn law_replaced_schema_count(tools: Seq<JsonV>, texts: Seq<Seq<u8>>, schemas: bool)
    ensures
        compress_tools_v(tools, texts, schemas).2 == long_schema_count(tools, texts, schemas),
    decreases tools.len(),
{
    if tools.len() > 0 {
        law_replaced_schema_count(tools.drop_last(), texts, schemas);
    }
}

} // verus!
