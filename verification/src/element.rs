//! The element interfaces and the table from tag names to them.

use vstd::prelude::*;
use crate::text::{chars_of, spells};

verus! {

/// Rank of a heading element, `h1` to `h6`.
#[derive(Clone, Copy, Debug, PartialEq, Eq, Structural)]
pub enum HeadingLevel {
    Heading1,
    Heading2,
    Heading3,
    Heading4,
    Heading5,
    Heading6,
}

/// The interface that an element is created with.
#[derive(Clone, Copy, Debug, PartialEq, Eq, Structural)]
pub enum ElementTypeId {
    HTMLAnchorElement,
    HTMLAppletElement,
    HTMLAreaElement,
    HTMLElement,
    HTMLAudioElement,
    HTMLBaseElement,
    HTMLBodyElement,
    HTMLBRElement,
    HTMLButtonElement,
    HTMLCanvasElement,
    HTMLTableCaptionElement,
    HTMLTableColElement,
    HTMLDataElement,
    HTMLDataListElement,
    HTMLModElement,
    HTMLDirectoryElement,
    HTMLDivElement,
    HTMLDListElement,
    HTMLEmbedElement,
    HTMLFieldSetElement,
    HTMLFontElement,
    HTMLFormElement,
    HTMLFrameElement,
    HTMLFrameSetElement,
    HTMLHeadingElement(HeadingLevel),
    HTMLHeadElement,
    HTMLHRElement,
    HTMLHtmlElement,
    HTMLIFrameElement,
    HTMLImageElement,
    HTMLInputElement,
    HTMLLabelElement,
    HTMLLegendElement,
    HTMLLIElement,
    HTMLLinkElement,
    HTMLMainElement,
    HTMLMapElement,
    HTMLMetaElement,
    HTMLMeterElement,
    HTMLObjectElement,
    HTMLOListElement,
    HTMLOptGroupElement,
    HTMLOptionElement,
    HTMLOutputElement,
    HTMLParagraphElement,
    HTMLParamElement,
    HTMLPreElement,
    HTMLProgressElement,
    HTMLQuoteElement,
    HTMLScriptElement,
    HTMLSelectElement,
    HTMLSourceElement,
    HTMLSpanElement,
    HTMLStyleElement,
    HTMLTableElement,
    HTMLTableSectionElement,
    HTMLTableDataCellElement,
    HTMLTemplateElement,
    HTMLTextAreaElement,
    HTMLTableHeaderCellElement,
    HTMLTimeElement,
    HTMLTitleElement,
    HTMLTableRowElement,
    HTMLTrackElement,
    HTMLUListElement,
    HTMLVideoElement,
    HTMLUnknownElement,
}

/// The interface of the element that a tag name creates. Names are matched
/// exactly, letter for letter; a name that is not in the table creates an
/// unknown element.
pub open spec fn element_type_of(tag: Seq<char>) -> ElementTypeId {
    if tag == "a"@ {
        ElementTypeId::HTMLAnchorElement
    }     else if tag == "applet"@ {
        ElementTypeId::HTMLAppletElement
    }     else if tag == "area"@ {
        ElementTypeId::HTMLAreaElement
    }     else if tag == "aside"@ {
        ElementTypeId::HTMLElement
    }     else if tag == "audio"@ {
        ElementTypeId::HTMLAudioElement
    }     else if tag == "b"@ {
        ElementTypeId::HTMLElement
    }     else if tag == "base"@ {
        ElementTypeId::HTMLBaseElement
    }     else if tag == "body"@ {
        ElementTypeId::HTMLBodyElement
    }     else if tag == "br"@ {
        ElementTypeId::HTMLBRElement
    }     else if tag == "button"@ {
        ElementTypeId::HTMLButtonElement
    }     else if tag == "canvas"@ {
        ElementTypeId::HTMLCanvasElement
    }     else if tag == "caption"@ {
        ElementTypeId::HTMLTableCaptionElement
    }     else if tag == "col"@ {
        ElementTypeId::HTMLTableColElement
    }     else if tag == "colgroup"@ {
        ElementTypeId::HTMLTableColElement
    }     else if tag == "data"@ {
        ElementTypeId::HTMLDataElement
    }     else if tag == "datalist"@ {
        ElementTypeId::HTMLDataListElement
    }     else if tag == "del"@ {
        ElementTypeId::HTMLModElement
    }     else if tag == "dir"@ {
        ElementTypeId::HTMLDirectoryElement
    }     else if tag == "div"@ {
        ElementTypeId::HTMLDivElement
    }     else if tag == "dl"@ {
        ElementTypeId::HTMLDListElement
    }     else if tag == "em"@ {
        ElementTypeId::HTMLElement
    }     else if tag == "embed"@ {
        ElementTypeId::HTMLEmbedElement
    }     else if tag == "fieldset"@ {
        ElementTypeId::HTMLFieldSetElement
    }     else if tag == "font"@ {
        ElementTypeId::HTMLFontElement
    }     else if tag == "form"@ {
        ElementTypeId::HTMLFormElement
    }     else if tag == "frame"@ {
        ElementTypeId::HTMLFrameElement
    }     else if tag == "frameset"@ {
        ElementTypeId::HTMLFrameSetElement
    }     else if tag == "h1"@ {
        ElementTypeId::HTMLHeadingElement(HeadingLevel::Heading1)
    }     else if tag == "h2"@ {
        ElementTypeId::HTMLHeadingElement(HeadingLevel::Heading2)
    }     else if tag == "h3"@ {
        ElementTypeId::HTMLHeadingElement(HeadingLevel::Heading3)
    }     else if tag == "h4"@ {
        ElementTypeId::HTMLHeadingElement(HeadingLevel::Heading4)
    }     else if tag == "h5"@ {
        ElementTypeId::HTMLHeadingElement(HeadingLevel::Heading5)
    }     else if tag == "h6"@ {
        ElementTypeId::HTMLHeadingElement(HeadingLevel::Heading6)
    }     else if tag == "head"@ {
        ElementTypeId::HTMLHeadElement
    }     else if tag == "hr"@ {
        ElementTypeId::HTMLHRElement
    }     else if tag == "html"@ {
        ElementTypeId::HTMLHtmlElement
    }     else if tag == "i"@ {
        ElementTypeId::HTMLElement
    }     else if tag == "iframe"@ {
        ElementTypeId::HTMLIFrameElement
    }     else if tag == "img"@ {
        ElementTypeId::HTMLImageElement
    }     else if tag == "input"@ {
        ElementTypeId::HTMLInputElement
    }     else if tag == "ins"@ {
        ElementTypeId::HTMLModElement
    }     else if tag == "label"@ {
        ElementTypeId::HTMLLabelElement
    }     else if tag == "legend"@ {
        ElementTypeId::HTMLLegendElement
    }     else if tag == "li"@ {
        ElementTypeId::HTMLLIElement
    }     else if tag == "link"@ {
        ElementTypeId::HTMLLinkElement
    }     else if tag == "main"@ {
        ElementTypeId::HTMLMainElement
    }     else if tag == "map"@ {
        ElementTypeId::HTMLMapElement
    }     else if tag == "meta"@ {
        ElementTypeId::HTMLMetaElement
    }     else if tag == "meter"@ {
        ElementTypeId::HTMLMeterElement
    }     else if tag == "object"@ {
        ElementTypeId::HTMLObjectElement
    }     else if tag == "ol"@ {
        ElementTypeId::HTMLOListElement
    }     else if tag == "optgroup"@ {
        ElementTypeId::HTMLOptGroupElement
    }     else if tag == "option"@ {
        ElementTypeId::HTMLOptionElement
    }     else if tag == "output"@ {
        ElementTypeId::HTMLOutputElement
    }     else if tag == "p"@ {
        ElementTypeId::HTMLParagraphElement
    }     else if tag == "param"@ {
        ElementTypeId::HTMLParamElement
    }     else if tag == "pre"@ {
        ElementTypeId::HTMLPreElement
    }     else if tag == "progress"@ {
        ElementTypeId::HTMLProgressElement
    }     else if tag == "q"@ {
        ElementTypeId::HTMLQuoteElement
    }     else if tag == "script"@ {
        ElementTypeId::HTMLScriptElement
    }     else if tag == "section"@ {
        ElementTypeId::HTMLElement
    }     else if tag == "select"@ {
        ElementTypeId::HTMLSelectElement
    }     else if tag == "small"@ {
        ElementTypeId::HTMLElement
    }     else if tag == "source"@ {
        ElementTypeId::HTMLSourceElement
    }     else if tag == "span"@ {
        ElementTypeId::HTMLSpanElement
    }     else if tag == "strong"@ {
        ElementTypeId::HTMLElement
    }     else if tag == "style"@ {
        ElementTypeId::HTMLStyleElement
    }     else if tag == "table"@ {
        ElementTypeId::HTMLTableElement
    }     else if tag == "tbody"@ {
        ElementTypeId::HTMLTableSectionElement
    }     else if tag == "td"@ {
        ElementTypeId::HTMLTableDataCellElement
    }     else if tag == "template"@ {
        ElementTypeId::HTMLTemplateElement
    }     else if tag == "textarea"@ {
        ElementTypeId::HTMLTextAreaElement
    }     else if tag == "th"@ {
        ElementTypeId::HTMLTableHeaderCellElement
    }     else if tag == "time"@ {
        ElementTypeId::HTMLTimeElement
    }     else if tag == "title"@ {
        ElementTypeId::HTMLTitleElement
    }     else if tag == "tr"@ {
        ElementTypeId::HTMLTableRowElement
    }     else if tag == "track"@ {
        ElementTypeId::HTMLTrackElement
    }     else if tag == "ul"@ {
        ElementTypeId::HTMLUListElement
    }     else if tag == "video"@ {
        ElementTypeId::HTMLVideoElement
    } else {
        ElementTypeId::HTMLUnknownElement
    }
}

/// Looks a tag name up in the table of element interfaces.
pub fn element_type_for(tag: &str) -> (id: ElementTypeId)
    ensures
        id == element_type_of(tag@),
{
    let name = chars_of(tag);
    if spells(&name, "a") {
        return ElementTypeId::HTMLAnchorElement;
    }
    if spells(&name, "applet") {
        return ElementTypeId::HTMLAppletElement;
    }
    if spells(&name, "area") {
        return ElementTypeId::HTMLAreaElement;
    }
    if spells(&name, "aside") {
        return ElementTypeId::HTMLElement;
    }
    if spells(&name, "audio") {
        return ElementTypeId::HTMLAudioElement;
    }
    if spells(&name, "b") {
        return ElementTypeId::HTMLElement;
    }
    if spells(&name, "base") {
        return ElementTypeId::HTMLBaseElement;
    }
    if spells(&name, "body") {
        return ElementTypeId::HTMLBodyElement;
    }
    if spells(&name, "br") {
        return ElementTypeId::HTMLBRElement;
    }
    if spells(&name, "button") {
        return ElementTypeId::HTMLButtonElement;
    }
    if spells(&name, "canvas") {
        return ElementTypeId::HTMLCanvasElement;
    }
    if spells(&name, "caption") {
        return ElementTypeId::HTMLTableCaptionElement;
    }
    if spells(&name, "col") {
        return ElementTypeId::HTMLTableColElement;
    }
    if spells(&name, "colgroup") {
        return ElementTypeId::HTMLTableColElement;
    }
    if spells(&name, "data") {
        return ElementTypeId::HTMLDataElement;
    }
    if spells(&name, "datalist") {
        return ElementTypeId::HTMLDataListElement;
    }
    if spells(&name, "del") {
        return ElementTypeId::HTMLModElement;
    }
    if spells(&name, "dir") {
        return ElementTypeId::HTMLDirectoryElement;
    }
    if spells(&name, "div") {
        return ElementTypeId::HTMLDivElement;
    }
    if spells(&name, "dl") {
        return ElementTypeId::HTMLDListElement;
    }
    if spells(&name, "em") {
        return ElementTypeId::HTMLElement;
    }
    if spells(&name, "embed") {
        return ElementTypeId::HTMLEmbedElement;
    }
    if spells(&name, "fieldset") {
        return ElementTypeId::HTMLFieldSetElement;
    }
    if spells(&name, "font") {
        return ElementTypeId::HTMLFontElement;
    }
    if spells(&name, "form") {
        return ElementTypeId::HTMLFormElement;
    }
    if spells(&name, "frame") {
        return ElementTypeId::HTMLFrameElement;
    }
    if spells(&name, "frameset") {
        return ElementTypeId::HTMLFrameSetElement;
    }
    if spells(&name, "h1") {
        return ElementTypeId::HTMLHeadingElement(HeadingLevel::Heading1);
    }
    if spells(&name, "h2") {
        return ElementTypeId::HTMLHeadingElement(HeadingLevel::Heading2);
    }
    if spells(&name, "h3") {
        return ElementTypeId::HTMLHeadingElement(HeadingLevel::Heading3);
    }
    if spells(&name, "h4") {
        return ElementTypeId::HTMLHeadingElement(HeadingLevel::Heading4);
    }
    if spells(&name, "h5") {
        return ElementTypeId::HTMLHeadingElement(HeadingLevel::Heading5);
    }
    if spells(&name, "h6") {
        return ElementTypeId::HTMLHeadingElement(HeadingLevel::Heading6);
    }
    if spells(&name, "head") {
        return ElementTypeId::HTMLHeadElement;
    }
    if spells(&name, "hr") {
        return ElementTypeId::HTMLHRElement;
    }
    if spells(&name, "html") {
        return ElementTypeId::HTMLHtmlElement;
    }
    if spells(&name, "i") {
        return ElementTypeId::HTMLElement;
    }
    if spells(&name, "iframe") {
        return ElementTypeId::HTMLIFrameElement;
    }
    if spells(&name, "img") {
        return ElementTypeId::HTMLImageElement;
    }
    if spells(&name, "input") {
        return ElementTypeId::HTMLInputElement;
    }
    if spells(&name, "ins") {
        return ElementTypeId::HTMLModElement;
    }
    if spells(&name, "label") {
        return ElementTypeId::HTMLLabelElement;
    }
    if spells(&name, "legend") {
        return ElementTypeId::HTMLLegendElement;
    }
    if spells(&name, "li") {
        return ElementTypeId::HTMLLIElement;
    }
    if spells(&name, "link") {
        return ElementTypeId::HTMLLinkElement;
    }
    if spells(&name, "main") {
        return ElementTypeId::HTMLMainElement;
    }
    if spells(&name, "map") {
        return ElementTypeId::HTMLMapElement;
    }
    if spells(&name, "meta") {
        return ElementTypeId::HTMLMetaElement;
    }
    if spells(&name, "meter") {
        return ElementTypeId::HTMLMeterElement;
    }
    if spells(&name, "object") {
        return ElementTypeId::HTMLObjectElement;
    }
    if spells(&name, "ol") {
        return ElementTypeId::HTMLOListElement;
    }
    if spells(&name, "optgroup") {
        return ElementTypeId::HTMLOptGroupElement;
    }
    if spells(&name, "option") {
        return ElementTypeId::HTMLOptionElement;
    }
    if spells(&name, "output") {
        return ElementTypeId::HTMLOutputElement;
    }
    if spells(&name, "p") {
        return ElementTypeId::HTMLParagraphElement;
    }
    if spells(&name, "param") {
        return ElementTypeId::HTMLParamElement;
    }
    if spells(&name, "pre") {
        return ElementTypeId::HTMLPreElement;
    }
    if spells(&name, "progress") {
        return ElementTypeId::HTMLProgressElement;
    }
    if spells(&name, "q") {
        return ElementTypeId::HTMLQuoteElement;
    }
    if spells(&name, "script") {
        return ElementTypeId::HTMLScriptElement;
    }
    if spells(&name, "section") {
        return ElementTypeId::HTMLElement;
    }
    if spells(&name, "select") {
        return ElementTypeId::HTMLSelectElement;
    }
    if spells(&name, "small") {
        return ElementTypeId::HTMLElement;
    }
    if spells(&name, "source") {
        return ElementTypeId::HTMLSourceElement;
    }
    if spells(&name, "span") {
        return ElementTypeId::HTMLSpanElement;
    }
    if spells(&name, "strong") {
        return ElementTypeId::HTMLElement;
    }
    if spells(&name, "style") {
        return ElementTypeId::HTMLStyleElement;
    }
    if spells(&name, "table") {
        return ElementTypeId::HTMLTableElement;
    }
    if spells(&name, "tbody") {
        return ElementTypeId::HTMLTableSectionElement;
    }
    if spells(&name, "td") {
        return ElementTypeId::HTMLTableDataCellElement;
    }
    if spells(&name, "template") {
        return ElementTypeId::HTMLTemplateElement;
    }
    if spells(&name, "textarea") {
        return ElementTypeId::HTMLTextAreaElement;
    }
    if spells(&name, "th") {
        return ElementTypeId::HTMLTableHeaderCellElement;
    }
    if spells(&name, "time") {
        return ElementTypeId::HTMLTimeElement;
    }
    if spells(&name, "title") {
        return ElementTypeId::HTMLTitleElement;
    }
    if spells(&name, "tr") {
        return ElementTypeId::HTMLTableRowElement;
    }
    if spells(&name, "track") {
        return ElementTypeId::HTMLTrackElement;
    }
    if spells(&name, "ul") {
        return ElementTypeId::HTMLUListElement;
    }
    if spells(&name, "video") {
        return ElementTypeId::HTMLVideoElement;
    }
    ElementTypeId::HTMLUnknownElement
}

} // verus!
