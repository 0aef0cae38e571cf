//! The parameters of a tool, out of a JSON Schema.
use crate::html::{escaped, push_escaped, wrap_text};
use crate::json::{
    get_member, get_member_string, get_member_strings, json_member, json_node, lemma_member_named,
    member_string, member_strings, member_views, read_json, JsonNode, JsonView,
};
use crate::text::{concatenated, join, joined, lemma_concatenated_push, list_has, push_text, views};
use vstd::prelude::*;

verus! {

/// A parameter of a tool. `choices` are the strings that it may be, where they are given.
pub struct Parameter {
    pub name: String,
    pub kind: String,
    pub required: bool,
    pub description: String,
    pub choices: Vec<String>,
}

/// The model of a `Parameter`.
pub struct ParameterView {
    pub name: Seq<char>,
    pub kind: Seq<char>,
    pub required: bool,
    pub description: Seq<char>,
    pub choices: Seq<Seq<char>>,
}

impl View for Parameter {
    type V = ParameterView;

    open spec fn view(&self) -> ParameterView {
        ParameterView {
            name: self.name@,
            kind: self.kind@,
            required: self.required,
            description: self.description@,
            choices: views(self.choices@),
        }
    }
}

/// The models of a list of parameters.
pub open spec fn parameter_views(params: Seq<Parameter>) -> Seq<ParameterView> {
    params.map_values(|p: Parameter| p@)
}

/// The parameter that a property of a schema describes.
pub open spec fn parameter_of(
    property: (Seq<char>, Seq<char>),
    required: Seq<Seq<char>>,
) -> ParameterView {
    ParameterView {
        name: property.0,
        kind: match member_string(property.1, "type"@) {
            Some(name) => name,
            None => "any"@,
        },
        required: required.contains(property.0),
        description: match member_string(property.1, "description"@) {
            Some(text) => text,
            None => ""@,
        },
        choices: member_strings(property.1, "enum"@),
    }
}

/// The parameters that a list of properties describes.
pub open spec fn parameters_of(
    properties: Seq<(Seq<char>, Seq<char>)>,
    required: Seq<Seq<char>>,
) -> Seq<ParameterView> {
    properties.map_values(|p: (Seq<char>, Seq<char>)| parameter_of(p, required))
}

/// The parameters that a schema describes, if it has properties.
pub open spec fn schema_parameters(schema: Seq<char>) -> Option<Seq<ParameterView>> {
    match json_member(schema, "properties"@) {
        Some(member) => match json_node(member) {
            Some(JsonView::Object(properties)) => Some(
                parameters_of(properties, member_strings(schema, "required"@)),
            ),
            _ => None,
        },
        None => None,
    }
}

fn read_parameter(name: &str, text: &str, required: &Vec<String>) -> (r: Parameter)
    ensures
        r@ == parameter_of((name@, text@), views(required@)),
{
    let kind = match get_member_string(text, "type") {
        Some(kind) => kind,
        None => "any".to_string(),
    };
    let description = match get_member_string(text, "description") {
        Some(description) => description,
        None => "".to_string(),
    };
    Parameter {
        name: name.to_string(),
        kind,
        required: list_has(required, name),
        description,
        choices: get_member_strings(text, "enum"),
    }
}

/// Reads the parameters that a JSON Schema describes, if it has properties.
pub fn read_parameters(schema: &str) -> (r: Option<Vec<Parameter>>)
    ensures
        match r {
            Some(params) => schema_parameters(schema@) == Some(parameter_views(params@)),
            None => schema_parameters(schema@) is None,
        },
{
    let member = match get_member(schema, "properties") {
        Some(member) => member,
        None => return None,
    };
    match read_json(member.as_str()) {
        Some(JsonNode::Object(properties)) => {
            let required = get_member_strings(schema, "required");
            let ghost all = parameters_of(member_views(properties@), views(required@));
            let mut params: Vec<Parameter> = Vec::new();
            let mut i: usize = 0;
            assert(parameter_views(params@) =~= all.take(0));
            while i < properties.len()
                invariant
                    all == parameters_of(member_views(properties@), views(required@)),
                    i <= properties.len(),
                    parameter_views(params@) == all.take(i as int),
                decreases properties.len() - i,
            {
                let param = read_parameter(
                    properties[i].0.as_str(),
                    properties[i].1.as_str(),
                    &required,
                );
                assert(param@ == all[i as int]);
                assert(parameter_views(params@.push(param)) =~= parameter_views(params@).push(
                    param@,
                ));
                assert(all.take(i + 1) =~= all.take(i as int).push(all[i as int]));
                params.push(param);
                i = i + 1;
            }
            assert(all.take(i as int) =~= all);
            Some(params)
        },
        _ => None,
    }
}

/// A choice as HTML.
pub open spec fn choice_html(choice: Seq<char>) -> Seq<char> {
    "<code>"@ + escaped(choice) + "</code>"@
}

/// The choices of a parameter as HTML.
pub open spec fn choices_html(choices: Seq<Seq<char>>) -> Seq<char> {
    if choices.len() == 0 {
        ""@
    } else {
        " ["@ + joined(choices.map_values(|c: Seq<char>| choice_html(c)), ", "@) + "]"@
    }
}

/// The description of a parameter as HTML.
pub open spec fn description_html(description: Seq<char>) -> Seq<char> {
    if description.len() == 0 {
        ""@
    } else {
        ": "@ + escaped(description)
    }
}

/// A parameter as an item of a list in HTML.
pub open spec fn parameter_html(param: ParameterView) -> Seq<char> {
    "            <li><code>"@ + escaped(param.name)
        + "</code> <span class=\"tool-param-type\">("@ + param.kind + (if param.required {
        ", required"@
    } else {
        ""@
    }) + ")</span>"@ + description_html(param.description) + choices_html(param.choices)
        + "</li>\n"@
}

/// Parameters as items of a list in HTML.
pub open spec fn parameter_items(params: Seq<ParameterView>) -> Seq<char>
    decreases params.len(),
{
    if params.len() == 0 {
        ""@
    } else {
        parameter_items(params.drop_last()) + parameter_html(params.last())
    }
}

/// The parameters of a tool as HTML.
pub open spec fn parameters_html(params: Seq<ParameterView>) -> Seq<char> {
    "        <div class=\"tool-params\">\n"@
        + "          <div class=\"tool-params-header\">Parameters</div>\n"@
        + "          <ul class=\"tool-params-list\">\n"@ + parameter_items(params)
        + "          </ul>\n"@ + "        </div>\n"@
}

/// The parameters that a schema describes as HTML. Without properties there is none.
pub open spec fn schema_html(schema: Seq<char>) -> Seq<char> {
    match schema_parameters(schema) {
        Some(params) => parameters_html(params),
        None => ""@,
    }
}

fn render_choices(choices: &Vec<String>) -> (r: String)
    ensures
        r@ == choices_html(views(choices@)),
{
    if choices.len() == 0 {
        return "".to_string();
    }
    let ghost all = views(choices@).map_values(|c: Seq<char>| choice_html(c));
    let mut codes: Vec<String> = Vec::new();
    let mut i: usize = 0;
    assert(views(codes@) =~= all.take(0));
    while i < choices.len()
        invariant
            all == views(choices@).map_values(|c: Seq<char>| choice_html(c)),
            i <= choices.len(),
            views(codes@) == all.take(i as int),
        decreases choices.len() - i,
    {
        push_text(&mut codes, wrap_text("<code>", choices[i].as_str(), "</code>").as_str());
        assert(all.take(i + 1) =~= all.take(i as int).push(all[i as int]));
        i = i + 1;
    }
    assert(all.take(i as int) =~= all);
    let mut r = " [".to_string();
    r.push_str(join(&codes, ", ").as_str());
    r.push_str("]");
    r
}

fn render_description(description: &str) -> (r: String)
    ensures
        r@ == description_html(description@),
{
    if description.is_empty() {
        return "".to_string();
    }
    let mut r = ": ".to_string();
    push_escaped(&mut r, description);
    r
}

fn render_parameter(param: &Parameter) -> (r: String)
    ensures
        r@ == parameter_html(param@),
{
    let mut r = "            <li><code>".to_string();
    push_escaped(&mut r, param.name.as_str());
    r.push_str("</code> <span class=\"tool-param-type\">(");
    r.push_str(param.kind.as_str());
    r.push_str(
        if param.required {
            ", required"
        } else {
            ""
        },
    );
    r.push_str(")</span>");
    r.push_str(render_description(param.description.as_str()).as_str());
    r.push_str(render_choices(&param.choices).as_str());
    r.push_str("</li>\n");
    r
}

/// Renders the parameters of a tool as an HTML list.
pub fn render_parameters(params: &Vec<Parameter>) -> (r: String)
    ensures
        r@ == parameters_html(parameter_views(params@)),
{
    let ghost all = parameter_views(params@);
    let mut items = "".to_string();
    let mut i: usize = 0;
    assert(all.take(0) =~= Seq::empty());
    while i < params.len()
        invariant
            all == parameter_views(params@),
            i <= params.len(),
            items@ == parameter_items(all.take(i as int)),
        decreases params.len() - i,
    {
        assert(all.take(i + 1).drop_last() =~= all.take(i as int));
        items.push_str(render_parameter(&params[i]).as_str());
        i = i + 1;
    }
    assert(all.take(i as int) =~= all);
    let mut r = "        <div class=\"tool-params\">\n".to_string();
    r.push_str("          <div class=\"tool-params-header\">Parameters</div>\n");
    r.push_str("          <ul class=\"tool-params-list\">\n");
    r.push_str(items.as_str());
    r.push_str("          </ul>\n");
    r.push_str("        </div>\n");
    r
}

/// Renders the parameters that a JSON Schema describes as an HTML list.
pub fn render_parameters_schema(schema: &str) -> (r: String)
    ensures
        r@ == schema_html(schema@),
{
    match read_parameters(schema) {
        Some(params) => render_parameters(&params),
        None => "".to_string(),
    }
}

/// The parameters of a schema are its properties, in order. Each is shown with its name, its
/// type, or `any` without one, whether it is among the required ones, its description, if it
/// has one, and what it may be, if that is given.
pub proof fn law_properties_are_shown_in_order(
    schema: Seq<char>,
    members: Seq<(Seq<char>, Seq<char>)>,
    i: int,
    properties: Seq<(Seq<char>, Seq<char>)>,
)
    requires
        json_node(schema) == Some(JsonView::Object(members)),
        0 <= i < members.len(),
        members[i].0 == "properties"@,
        forall|k: int| 0 <= k < i ==> (#[trigger] members[k]).0 != "properties"@,
        json_node(members[i].1) == Some(JsonView::Object(properties)),
    ensures
        schema_html(schema)
            == "        <div class=\"tool-params\">\n          <div class=\"tool-params-header\">Parameters</div>\n          <ul class=\"tool-params-list\">\n"@
            + concatenated(
            properties.map_values(
                |property: (Seq<char>, Seq<char>)|
                    "            <li><code>"@ + escaped(property.0)
                        + "</code> <span class=\"tool-param-type\">("@ + (match member_string(
                        property.1,
                        "type"@,
                    ) {
                        Some(kind) => kind,
                        None => "any"@,
                    }) + (if member_strings(schema, "required"@).contains(property.0) {
                        ", required"@
                    } else {
                        ""@
                    }) + ")</span>"@ + (match member_string(property.1, "description"@) {
                        Some(text) => if text.len() > 0 {
                            ": "@ + escaped(text)
                        } else {
                            ""@
                        },
                        None => ""@,
                    }) + (if member_strings(property.1, "enum"@).len() > 0 {
                        " ["@ + joined(
                            member_strings(property.1, "enum"@).map_values(
                                |choice: Seq<char>| "<code>"@ + escaped(choice) + "</code>"@,
                            ),
                            ", "@,
                        ) + "]"@
                    } else {
                        ""@
                    }) + "</li>\n"@,
            ),
        ) + "          </ul>\n        </div>\n"@,
{
    let required = member_strings(schema, "required"@);
    lemma_member_named(members, i, "properties"@);
    lemma_parameter_items(properties, required);
    let framed = |property: (Seq<char>, Seq<char>)|
        parameter_html(parameter_of(property, required));
    let shown = |property: (Seq<char>, Seq<char>)|
        "            <li><code>"@ + escaped(property.0)
            + "</code> <span class=\"tool-param-type\">("@ + (match member_string(
            property.1,
            "type"@,
        ) {
            Some(kind) => kind,
            None => "any"@,
        }) + (if member_strings(schema, "required"@).contains(property.0) {
            ", required"@
        } else {
            ""@
        }) + ")</span>"@ + (match member_string(property.1, "description"@) {
            Some(text) => if text.len() > 0 {
                ": "@ + escaped(text)
            } else {
                ""@
            },
            None => ""@,
        }) + (if member_strings(property.1, "enum"@).len() > 0 {
            " ["@ + joined(
                member_strings(property.1, "enum"@).map_values(
                    |choice: Seq<char>| "<code>"@ + escaped(choice) + "</code>"@,
                ),
                ", "@,
            ) + "]"@
        } else {
            ""@
        }) + "</li>\n"@;
    assert forall|k: int| 0 <= k < properties.len() implies framed(#[trigger] properties[k])
        == shown(properties[k]) by {
        lemma_choices(member_strings(properties[k].1, "enum"@));
        reveal_strlit("");
    }
    assert(properties.map_values(framed) =~= properties.map_values(shown));
    lemma_list_frame(concatenated(properties.map_values(shown)));
}

proof fn lemma_choices(choices: Seq<Seq<char>>)
    ensures
        choices.map_values(|c: Seq<char>| choice_html(c)) == choices.map_values(
            |choice: Seq<char>| "<code>"@ + escaped(choice) + "</code>"@,
        ),
{
    assert(choices.map_values(|c: Seq<char>| choice_html(c)) =~= choices.map_values(
        |choice: Seq<char>| "<code>"@ + escaped(choice) + "</code>"@,
    ));
}

proof fn lemma_list_frame(items: Seq<char>)
    ensures
        "        <div class=\"tool-params\">\n"@
            + "          <div class=\"tool-params-header\">Parameters</div>\n"@
            + "          <ul class=\"tool-params-list\">\n"@ + items + "          </ul>\n"@
            + "        </div>\n"@
            == "        <div class=\"tool-params\">\n          <div class=\"tool-params-header\">Parameters</div>\n          <ul class=\"tool-params-list\">\n"@
            + items + "          </ul>\n        </div>\n"@,
{
    reveal_strlit("        <div class=\"tool-params\">\n");
    reveal_strlit("          <div class=\"tool-params-header\">Parameters</div>\n");
    reveal_strlit("          <ul class=\"tool-params-list\">\n");
    reveal_strlit(
        "        <div class=\"tool-params\">\n          <div class=\"tool-params-header\">Parameters</div>\n          <ul class=\"tool-params-list\">\n",
    );
    reveal_strlit("          </ul>\n");
    reveal_strlit("        </div>\n");
    reveal_strlit("          </ul>\n        </div>\n");
    let start = "        <div class=\"tool-params\">\n"@
        + "          <div class=\"tool-params-header\">Parameters</div>\n"@
        + "          <ul class=\"tool-params-list\">\n"@;
    assert(start
        =~= "        <div class=\"tool-params\">\n          <div class=\"tool-params-header\">Parameters</div>\n          <ul class=\"tool-params-list\">\n"@);
    let end = "          </ul>\n"@ + "        </div>\n"@;
    assert(end =~= "          </ul>\n        </div>\n"@);
    assert(start + items + "          </ul>\n"@ + "        </div>\n"@ =~= start + items + end);
}

proof fn lemma_parameter_items(
    properties: Seq<(Seq<char>, Seq<char>)>,
    required: Seq<Seq<char>>,
)
    ensures
        parameter_items(parameters_of(properties, required)) == concatenated(
            properties.map_values(
                |property: (Seq<char>, Seq<char>)|
                    parameter_html(parameter_of(property, required)),
            ),
        ),
    decreases properties.len(),
{
    let framed = |property: (Seq<char>, Seq<char>)|
        parameter_html(parameter_of(property, required));
    let all = parameters_of(properties, required);
    if properties.len() > 0 {
        lemma_parameter_items(properties.drop_last(), required);
        let before = properties.drop_last().map_values(framed);
        assert(all.drop_last() =~= parameters_of(properties.drop_last(), required));
        lemma_concatenated_push(before, framed(properties.last()));
        assert(properties.map_values(framed) =~= before.push(framed(properties.last())));
    } else {
        reveal_strlit("");
        assert(parameter_items(all) =~= concatenated(properties.map_values(framed)));
    }
}

/// A schema without properties, or a text that is no schema, shows nothing.
pub proof fn law_no_properties_show_nothing(schema: Seq<char>)
    requires
        json_member(schema, "properties"@) matches Some(member) ==> !(json_node(
            member,
        ) matches Some(JsonView::Object(_))),
    ensures
        schema_html(schema).len() == 0,
{
    reveal_strlit("");
}

} // verus!
