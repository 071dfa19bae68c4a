//! Context providers.
//!
//! A run is only as good as what it knows at step one. A context provider is a
//! named, declared source — a constant, a query, or a handler — that is resolved
//! when a run starts and handed to the model as a delimited block in the system
//! prompt, bounded in size because it is re-sent on every step.

use crate::auth::{Principal, Root, reachable_identity};
use crate::http::{PylonRequest, PylonResponse, body_value, plain_ask};
use crate::json::{Json, JsonView, field, json_pretty, json_text, views};
use crate::manifest::{ContextDef, ContextSource, Manifest, QueryReturns, context_named};
use crate::text::{
    cat2, cat3, cat4, cat5, cat6, cat7, chars_of, debug_quoted, decimal, decimal_text, decode_lossy, lossy_text, quoted,
    replace_char, same, text_of, texts, trim_end, trimmed_end, with_char,
};
use vstd::prelude::*;
use vstd::string::*;
use vstd::utf8::encode_utf8;

verus! {

/// What a value reads as: a string is itself, anything else is printed indented.
pub open spec fn rendered(value: JsonView) -> Seq<char> {
    match value {
        JsonView::Str(s) => s,
        other => json_pretty(other),
    }
}

/// What a value reads as: a string is itself, anything else is printed indented.
pub fn render(value: &Json) -> (r: String)
    ensures
        r@ == rendered(value@),
{
    match value {
        Json::Str(s) => s.clone(),
        other => other.to_text_pretty(),
    }
}

/// A text cut to a number of characters, saying so; zero is no bound.
pub open spec fn clipped(text: Seq<char>, max_chars: nat) -> Seq<char> {
    if max_chars == 0 || text.len() <= max_chars {
        text
    } else {
        text.take(max_chars as int) + "\n…[context truncated to "@ + decimal(max_chars) + " characters]"@
    }
}

/// Cut at a character boundary, saying so.
pub fn clip(text: &str, max_chars: usize) -> (r: String)
    ensures
        r@ == clipped(text@, max_chars as nat),
{
    let chars = chars_of(text);
    if max_chars == 0 || chars.len() <= max_chars {
        return text.to_owned();
    }
    let kept = text_of(&chars, 0, max_chars);
    assert(kept@ =~= text@.take(max_chars as int));
    cat4(
        kept.as_str(),
        "\n…[context truncated to ",
        decimal_text(max_chars as u64).as_str(),
        " characters]",
    )
}

/// A block of a system prompt.
pub open spec fn context_block(name: Seq<char>, description: Seq<char>, text: Seq<char>) -> Seq<char> {
    if description.len() == 0 {
        "<context name=\""@ + name + "\">\n"@ + text + "\n</context>\n"@
    } else {
        "<context name=\""@ + name + "\" description=\""@ + with_char(description, '"', '\'') + "\">\n"@ + text
            + "\n</context>\n"@
    }
}

/// The blocks of some providers and their values, a line between two.
pub open spec fn context_blocks(defs: Seq<&ContextDef>, values: Seq<JsonView>) -> Seq<char>
    decreases defs.len(),
{
    if defs.len() == 0 || values.len() < defs.len() {
        Seq::empty()
    } else {
        let before = context_blocks(defs.drop_last(), values);
        let def = defs.last();
        let block = context_block(
            def.name@,
            def.description@,
            clipped(rendered(values[defs.len() - 1]), def.max_chars as nat),
        );
        if before.len() == 0 {
            block
        } else {
            before + "\n"@ + block
        }
    }
}

/// Renders providers and their values as system-prompt blocks.
pub fn render_blocks(defs: &Vec<&ContextDef>, values: &Vec<Json>) -> (r: String)
    requires
        defs@.len() == values@.len(),
    ensures
        r@ == trimmed_end(context_blocks(defs@, views(values@))),
{
    let ghost all = defs@;
    let ghost vals = views(values@);
    let mut out = String::new();
    let mut i: usize = 0;
    assert(out@ =~= context_blocks(all.take(0), vals));
    while i < defs.len()
        invariant
            i <= defs@.len(),
            all == defs@,
            vals == views(values@),
            defs@.len() == values@.len(),
            out@ == context_blocks(all.take(i as int), vals),
        decreases defs.len() - i,
    {
        proof {
            assert(all.take(i + 1).drop_last() =~= all.take(i as int));
            assert(all.take(i + 1).last() == all[i as int]);
            assert(vals[i as int] == values@[i as int]@);
        }
        let def = defs[i];
        let text = clip(render(&values[i]).as_str(), def.max_chars);
        let block = if def.description.as_str().is_empty() {
            cat5("<context name=\"", def.name.as_str(), "\">\n", text.as_str(), "\n</context>\n")
        } else {
            cat7(
                "<context name=\"",
                def.name.as_str(),
                "\" description=\"",
                replace_char(def.description.as_str(), '"', '\'').as_str(),
                "\">\n",
                text.as_str(),
                "\n</context>\n",
            )
        };
        out = if out.as_str().is_empty() {
            block
        } else {
            cat3(out.as_str(), "\n", block.as_str())
        };
        i = i + 1;
    }
    assert(all.take(all.len() as int) =~= all);
    trim_end(out.as_str())
}

/// What a query parameter is bound to: `@principal` to whoever the run acts for, and
/// nothing where that is anonymous, whose data is not pooled; any other name to the
/// member of the input.
pub open spec fn bound_to(name: Seq<char>, identity: Option<Seq<char>>, input: JsonView) -> JsonView {
    if name == "@principal"@ {
        match identity {
            Some(id) => JsonView::Str(id),
            None => JsonView::Null,
        }
    } else {
        field(input, name)
    }
}

/// What query parameters are bound to.
pub fn bindings(params: &Vec<String>, principal: &Principal, root: &Root, input: &Json) -> (r: Vec<Json>)
    ensures
        views(r@) == texts(params@).map_values(
            |n: Seq<char>| bound_to(n, reachable_identity(principal@, root@), input@),
        ),
{
    let mut out: Vec<Json> = Vec::new();
    let mut i: usize = 0;
    while i < params.len()
        invariant
            i <= params@.len(),
            out@.len() == i,
            forall|k: int|
                0 <= k < i ==> (#[trigger] out@[k])@ == bound_to(
                    params@[k]@,
                    reachable_identity(principal@, root@),
                    input@,
                ),
        decreases params.len() - i,
    {
        let value = if same(params[i].as_str(), "@principal") {
            match root.identity_for(principal) {
                Some(id) => Json::str(id),
                None => Json::Null,
            }
        } else {
            crate::provider::member_or_null(input, params[i].as_str())
        };
        out.push(value);
        i = i + 1;
    }
    assert(views(out@) =~= texts(params@).map_values(
        |n: Seq<char>| bound_to(n, reachable_identity(principal@, root@), input@),
    ));
    out
}

/// What resolving a provider takes.
#[derive(Debug)]
pub enum ContextStep<'a> {
    /// The value is there.
    Value(&'a Json),
    /// A query is to be run, and its outcome handed to [`settle_query`].
    Query { sql: &'a str, bindings: Vec<Json>, returns: QueryReturns },
    /// A handler is to be called, and its answer handed to [`settle_call`].
    Call { handler: u32, request: PylonRequest },
}

/// Looks a provider up by its name.
pub fn declared<'a>(manifest: &'a Manifest, name: &str) -> (r: Result<&'a ContextDef, String>)
    ensures
        match r {
            Ok(c) => context_named(manifest.contexts@, name@) == Some(*c) && c.name@ == name@,
            Err(e) => context_named(manifest.contexts@, name@) is None && e@ == "context "@ + debug_quoted(name@)
                + " is not declared"@,
        },
{
    match manifest.context(name) {
        Some(c) => Ok(c),
        None => Err(cat3("context ", quoted(name).as_str(), " is not declared")),
    }
}

/// Begins to resolve a provider, on behalf of a principal under a root.
pub fn resolve_one<'a>(
    def: &'a ContextDef,
    has_database: bool,
    principal: &Principal,
    root: &Root,
    input: &Json,
) -> (r: Result<ContextStep<'a>, String>)
    ensures
        match def.source {
            ContextSource::Static { value } => r matches Ok(ContextStep::Value(v)) && *v == value,
            ContextSource::Query { sql, params, returns } => if has_database {
                r matches Ok(ContextStep::Query { sql: s, bindings: b, returns: t }) && s@ == sql@ && views(b@)
                    == texts(params@).map_values(
                    |n: Seq<char>| bound_to(n, reachable_identity(principal@, root@), input@),
                ) && t == returns
            } else {
                r matches Err(e) && e@ == "context "@ + debug_quoted(def.name@)
                    + " runs a query but no database is configured"@
            },
            ContextSource::Python { handler } => r matches Ok(ContextStep::Call { handler: h, request: q }) && h
                == handler && q@ == plain_ask(
                "POST"@,
                "/_context/"@ + def.name@,
                encode_utf8(json_text(input@)),
                principal@,
            ),
        },
{
    match &def.source {
        ContextSource::Static { value } => Ok(ContextStep::Value(value)),
        ContextSource::Query { sql, params, returns } => {
            if !has_database {
                return Err(
                    cat3(
                        "context ",
                        quoted(def.name.as_str()).as_str(),
                        " runs a query but no database is configured",
                    ),
                );
            }
            Ok(
                ContextStep::Query { sql: sql.as_str(), bindings: bindings(params, principal, root, input), returns: *returns },
            )
        },
        ContextSource::Python { handler } => {
            let path = cat2("/_context/", def.name.as_str());
            let body = input.to_text().as_str().as_bytes_vec();
            let request = PylonRequest::plain("POST", path.as_str(), body, principal.copy());
            Ok(ContextStep::Call { handler: *handler, request })
        },
    }
}

/// What the outcome of a provider's query means.
pub fn settle_query(def: &ContextDef, outcome: Result<Json, String>) -> (r: Result<Json, String>)
    ensures
        match outcome {
            Ok(v) => r matches Ok(w) && w@ == v@,
            Err(m) => r matches Err(e) && e@ == "context "@ + debug_quoted(def.name@) + ": "@ + m@,
        },
{
    match outcome {
        Ok(v) => Ok(v),
        Err(m) => Err(cat4("context ", quoted(def.name.as_str()).as_str(), ": ", m.as_str())),
    }
}

/// What the answer of a provider's handler means.
pub fn settle_call(def: &ContextDef, res: &PylonResponse) -> (r: Result<Json, String>)
    ensures
        if res.status >= 400 {
            r matches Err(e) && e@ == "context "@ + debug_quoted(def.name@) + " failed with "@ + decimal(
                res.status as nat,
            ) + ": "@ + lossy_text(res.body@)
        } else {
            r matches Ok(v) && v@ == body_value(res.body@)
        },
{
    if res.status >= 400 {
        let detail = decode_lossy(&res.body);
        return Err(
            cat6(
                "context ",
                quoted(def.name.as_str()).as_str(),
                " failed with ",
                decimal_text(res.status as u64).as_str(),
                ": ",
                detail.as_str(),
            ),
        );
    }
    Ok(res.json_value())
}

/// A clipped text keeps the first characters, as many as the bound, and nothing is
/// cut where they fit.
pub proof fn law_clipping_keeps_a_prefix(text: Seq<char>, max_chars: nat)
    ensures
        text.len() <= max_chars ==> clipped(text, max_chars) == text,
        max_chars > 0 && text.len() > max_chars ==> text.take(max_chars as int).is_prefix_of(
            clipped(text, max_chars),
        ),
{
    if max_chars > 0 && text.len() > max_chars {
        let kept = text.take(max_chars as int);
        let out = clipped(text, max_chars);
        assert(out.subrange(0, kept.len() as int) =~= kept);
    }
}

/// A value is shown as it reads: a text as it is, and anything else as it prints.
pub proof fn law_a_value_is_shown_as_it_reads(value: JsonView, s: Seq<char>)
    ensures
        rendered(JsonView::Str(s)) == s,
        !(value is Str) ==> rendered(value) == json_pretty(value),
{
}

proof fn lemma_block_holds(name: Seq<char>, description: Seq<char>, text: Seq<char>)
    ensures
        crate::text::contains_text(context_block(name, description, text), "\n"@ + text + "\n"@),
        ("<context name=\""@ + name + "\""@).is_prefix_of(context_block(name, description, text)),
        context_block(name, description, text).len() > 0,
{
    reveal_strlit("\n");
    reveal_strlit("\">\n");
    reveal_strlit("\n</context>\n");
    reveal_strlit("<context name=\"");
    reveal_strlit("\"");
    reveal_strlit("\" description=\"");
    let b = context_block(name, description, text);
    let open = "<context name=\""@ + name + "\""@;
    let head = if description.len() == 0 {
        "<context name=\""@ + name + "\">\n"@
    } else {
        "<context name=\""@ + name + "\" description=\""@ + with_char(description, '"', '\'') + "\">\n"@
    };
    assert(b =~= head + text + "\n</context>\n"@);
    let at = head.len() - 1;
    let held = "\n"@ + text + "\n"@;
    assert(b.subrange(at, at + held.len()) =~= held);
    assert(crate::text::occurs_at(b, held, at));
    assert(b.subrange(0, open.len() as int) =~= open);
}

proof fn lemma_held_within(a: Seq<char>, s: Seq<char>, b: Seq<char>, x: Seq<char>)
    requires
        crate::text::contains_text(s, x),
    ensures
        crate::text::contains_text(a + s + b, x),
{
    let at = choose|at: int| crate::text::occurs_at(s, x, at);
    let all = a + s + b;
    assert(all.subrange(a.len() + at, a.len() + at + x.len()) =~= s.subrange(at, at + x.len()));
    assert(crate::text::occurs_at(all, x, a.len() + at));
}

/// Every provider of a prompt is heard: its name stands in the prompt, and what its value
/// reads as, within its bound.
pub proof fn law_every_provider_is_heard(defs: Seq<&ContextDef>, values: Seq<JsonView>, i: int)
    requires
        0 <= i < defs.len() <= values.len(),
    ensures
        crate::text::contains_text(context_blocks(defs, values), "<context name=\""@ + defs[i].name@ + "\""@),
        defs[i].max_chars == 0 || rendered(values[i]).len() <= defs[i].max_chars ==> crate::text::contains_text(
            context_blocks(defs, values),
            "\n"@ + rendered(values[i]) + "\n"@,
        ),
    decreases defs.len(),
{
    let rest = defs.drop_last();
    let before = context_blocks(rest, values);
    let def = defs.last();
    let text = clipped(rendered(values[defs.len() - 1]), def.max_chars as nat);
    let block = context_block(def.name@, def.description@, text);
    let all = context_blocks(defs, values);
    let none = Seq::<char>::empty();
    lemma_block_holds(def.name@, def.description@, text);
    let open = "<context name=\""@ + defs[i].name@ + "\""@;
    let held = "\n"@ + rendered(values[i]) + "\n"@;
    let fits = defs[i].max_chars == 0 || rendered(values[i]).len() <= defs[i].max_chars;
    if i == defs.len() - 1 {
        assert(crate::text::occurs_at(block, open, 0)) by {
            assert(block.subrange(0, open.len() as int) =~= open);
        }
        assert(crate::text::contains_text(block, open));
        if before.len() == 0 {
            assert(all == block);
        } else {
            assert(all =~= before + "\n"@ + block + none);
            lemma_held_within(before + "\n"@, block, none, open);
            if fits {
                lemma_held_within(before + "\n"@, block, none, held);
            }
        }
    } else {
        law_every_provider_is_heard(rest, values, i);
        assert(rest[i] == defs[i]);
        lemma_some_block(rest, values);
        assert(all =~= none + before + ("\n"@ + block));
        lemma_held_within(none, before, "\n"@ + block, open);
        if fits {
            lemma_held_within(none, before, "\n"@ + block, held);
        }
    }
}

proof fn lemma_some_block(defs: Seq<&ContextDef>, values: Seq<JsonView>)
    requires
        0 < defs.len() <= values.len(),
    ensures
        context_blocks(defs, values).len() > 0,
{
    let def = defs.last();
    lemma_block_holds(
        def.name@,
        def.description@,
        clipped(rendered(values[defs.len() - 1]), def.max_chars as nat),
    );
}

/// A query of a provider is bound to what it names: `@principal` to whoever the run acts
/// for, and to nothing where nobody is; any other name to the member of the input.
pub proof fn law_a_query_is_bound_to_what_it_names(name: Seq<char>, id: Seq<char>, one: JsonView, other: JsonView)
    ensures
        bound_to("@principal"@, Some(id), one) == JsonView::Str(id),
        bound_to("@principal"@, None, one) == JsonView::Null,
        bound_to("@principal"@, Some(id), one) == bound_to("@principal"@, Some(id), other),
        name != "@principal"@ && crate::json::member(one, name) is Some ==> bound_to(name, Some(id), one)
            == crate::json::member(one, name)->0,
        name != "@principal"@ && crate::json::member(one, name) is None ==> bound_to(name, Some(id), one) == JsonView::Null,
        name != "@principal"@ ==> bound_to(name, Some(id), one) == bound_to(name, None, one),
{
}

} // verus!
