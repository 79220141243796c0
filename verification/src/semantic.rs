//! The requests of the semantic processor (an L0 abstract of about a
//! hundred tokens and an L1 overview of about a thousand) and of the
//! multimodal aligner (text to visual description and back, and whether two
//! descriptions name the same thing).

use vstd::prelude::*;
use crate::text::concat_str;

verus! {

/// What precedes the address in the abstract request.
pub const ABSTRACT_HEAD: &'static str = "You are a context summarizer. Write a concise L0 abstract (~100 tokens) for:\nURI: ";

/// What follows the address in the abstract request.
pub const ABSTRACT_TAIL: &'static str = "\n\nAn abstract should capture: what this entry is about, its category, and key information.\nRespond with ONLY the abstract text, no additional commentary.\n";

/// What precedes the address in the overview request.
pub const OVERVIEW_HEAD: &'static str = "You are a context organizer. Write an L1 overview (~1000 tokens) for:\nURI: ";

/// What follows the address in the overview request.
pub const OVERVIEW_TAIL: &'static str = "\n\nAn overview should include:\n1. A structured table of contents with sections\n2. Key concepts and their relationships\n3. Navigation hints for related entries\n\nFormat as Markdown with ## section headers.\nRespond with ONLY the overview text.\n";

/// The abstract request for the entry at `uri`.
pub fn abstract_prompt(uri: &str) -> (r: String)
    ensures
        r@ == ABSTRACT_HEAD@ + uri@ + ABSTRACT_TAIL@,
{
    let a = concat_str(ABSTRACT_HEAD, uri);
    concat_str(a.as_str(), ABSTRACT_TAIL)
}

/// The overview request for the entry at `uri`.
pub fn overview_prompt(uri: &str) -> (r: String)
    ensures
        r@ == OVERVIEW_HEAD@ + uri@ + OVERVIEW_TAIL@,
{
    let a = concat_str(OVERVIEW_HEAD, uri);
    concat_str(a.as_str(), OVERVIEW_TAIL)
}

/// Why a multimodal entry cannot be turned into text.
pub fn multimodal_unsupported(uri: &str) -> (r: String)
    ensures
        r@ == "multimodal_to_text not yet implemented for "@ + uri@,
{
    concat_str("multimodal_to_text not yet implemented for ", uri)
}

/// The request that turns a text into a visual description.
pub open spec fn text_to_visual_text(text: Seq<char>) -> Seq<char> {
    "Convert this text description into a detailed visual description suitable for image generation:\n\nText: \""@
        + text + "\"\n\nDescribe: colors, shapes, spatial relationships, lighting, perspective, style.\nRespond with ONLY the visual description."@
}

/// The request that turns a text into a visual description.
pub fn text_to_visual_prompt(text: &str) -> (r: String)
    ensures
        r@ == text_to_visual_text(text@),
{
    let a = concat_str("Convert this text description into a detailed visual description suitable for image generation:\n\nText: \"", text);
    let r = concat_str(a.as_str(), "\"\n\nDescribe: colors, shapes, spatial relationships, lighting, perspective, style.\nRespond with ONLY the visual description.");
    proof {
        assert(r@ =~= text_to_visual_text(text@));
    }
    r
}

/// The request that turns a visual description into structured text.
pub open spec fn visual_to_text_text(visual: Seq<char>) -> Seq<char> {
    "Extract structured information from this visual description:\n\nVisual: \""@ + visual
        + "\"\n\nReturn: what objects are present, their properties, actions, and relationships.\nRespond with ONLY the structured summary."@
}

/// The request that turns a visual description into structured text.
pub fn visual_to_text_prompt(visual_description: &str) -> (r: String)
    ensures
        r@ == visual_to_text_text(visual_description@),
{
    let a = concat_str("Extract structured information from this visual description:\n\nVisual: \"", visual_description);
    let r = concat_str(a.as_str(), "\"\n\nReturn: what objects are present, their properties, actions, and relationships.\nRespond with ONLY the structured summary.");
    proof {
        assert(r@ =~= visual_to_text_text(visual_description@));
    }
    r
}

/// The request that asks whether two descriptions name the same thing.
pub open spec fn equivalence_text(a: Seq<char>, b: Seq<char>) -> Seq<char> {
    "Are these two descriptions referring to the same thing?\n\nDescription A: \""@ + a
        + "\"\nDescription B: \""@ + b
        + "\"\n\nReturn a JSON with \"same\": true/false and \"confidence\": 0.0-1.0."@
}

/// The request that asks whether two descriptions name the same thing.
pub fn equivalence_prompt(text_desc: &str, other_text_desc: &str) -> (r: String)
    ensures
        r@ == equivalence_text(text_desc@, other_text_desc@),
{
    let a = concat_str("Are these two descriptions referring to the same thing?\n\nDescription A: \"", text_desc);
    let b = concat_str(a.as_str(), "\"\nDescription B: \"");
    let c = concat_str(b.as_str(), other_text_desc);
    let r = concat_str(c.as_str(), "\"\n\nReturn a JSON with \"same\": true/false and \"confidence\": 0.0-1.0.");
    proof {
        assert(r@ =~= equivalence_text(text_desc@, other_text_desc@));
    }
    r
}

} // verus!
