//! The constant system prompt and the diagram-context system message.

use vstd::prelude::*;
use vstd::string::*;

verus! {

/// The base system prompt shipped with every request.
pub open spec fn base_system_prompt() -> Seq<char> {
    "You are an expert diagram creation assistant specializing in draw.io XML generation.\nYour primary function is chat with user and crafting clear, well-organized visual diagrams through precise XML specifications.\n\nWhen you are asked to create a diagram, briefly describe your plan about the layout and structure to avoid object overlapping or edge cross the objects. (2-3 sentences max), then use display_diagram tool to generate the XML.\n\nYou utilize the following tools:\n- display_diagram: Display a NEW diagram on draw.io\n- edit_diagram: Edit specific parts of the EXISTING diagram\n- append_diagram: Continue generating diagram XML when display_diagram was truncated\n\nIMPORTANT: Generate ONLY mxCell elements - NO wrapper tags (<mxfile>, <mxGraphModel>, <root>).\n"@
}

/// The system prompt, with the minimal-style banner prefixed on demand.
pub open spec fn spec_system_prompt(minimal_style: bool) -> Seq<char> {
    if minimal_style {
        "## ⚠️ MINIMAL STYLE MODE ACTIVE ⚠️\n\n"@ + base_system_prompt()
    } else {
        base_system_prompt()
    }
}

/// Produce the system prompt for a request. The model id takes no part in
/// it yet; the caller's minimal-style flag toggles the banner prefix.
pub fn get_system_prompt(_model_id: &str, minimal_style: bool) -> (r: String)
    ensures
        r@ == spec_system_prompt(minimal_style),
{
    let base =
        "You are an expert diagram creation assistant specializing in draw.io XML generation.\nYour primary function is chat with user and crafting clear, well-organized visual diagrams through precise XML specifications.\n\nWhen you are asked to create a diagram, briefly describe your plan about the layout and structure to avoid object overlapping or edge cross the objects. (2-3 sentences max), then use display_diagram tool to generate the XML.\n\nYou utilize the following tools:\n- display_diagram: Display a NEW diagram on draw.io\n- edit_diagram: Edit specific parts of the EXISTING diagram\n- append_diagram: Continue generating diagram XML when display_diagram was truncated\n\nIMPORTANT: Generate ONLY mxCell elements - NO wrapper tags (<mxfile>, <mxGraphModel>, <root>).\n";
    if minimal_style {
        let mut r = String::from_str("## ⚠️ MINIMAL STYLE MODE ACTIVE ⚠️\n\n");
        r.append(base);
        r
    } else {
        base.to_owned()
    }
}

/// The diagram-context system message: nothing without a current diagram;
/// otherwise the previous diagram's fenced block, when one exists,
/// followed by the current diagram's fenced block.
pub open spec fn spec_xml_context(xml: Option<Seq<char>>, prev: Option<Seq<char>>) -> Seq<char> {
    match xml {
        None => Seq::empty(),
        Some(x) => (match prev {
            Some(p) => "Previous diagram XML:\n```xml\n"@ + p + "\n```\n\n"@,
            None => Seq::empty(),
        }) + "Current diagram XML:\n```xml\n"@ + x + "\n```"@,
    }
}

/// Build the diagram-context block embedded as an extra system message.
pub fn build_xml_context(xml: Option<&String>, previous_xml: Option<&String>) -> (r: String)
    ensures
        r@ == spec_xml_context(
            match xml {
                Some(x) => Some(x@),
                None => None,
            },
            match previous_xml {
                Some(p) => Some(p@),
                None => None,
            },
        ),
{
    match xml {
        None => String::new(),
        Some(x) => {
            let mut r = String::new();
            match previous_xml {
                Some(p) => {
                    r.append("Previous diagram XML:\n```xml\n");
                    r.append(p.as_str());
                    r.append("\n```\n\n");
                },
                None => {},
            }
            r.append("Current diagram XML:\n```xml\n");
            r.append(x.as_str());
            r.append("\n```");
            proof {
                assert(r@ =~= spec_xml_context(
                    Some(x@),
                    match previous_xml {
                        Some(p) => Some(p@),
                        None => None,
                    },
                ));
            }
            r
        },
    }
}

} // verus!
