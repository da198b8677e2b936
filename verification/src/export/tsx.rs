//! The `.tsx` tileset document.
use vstd::prelude::*;

use crate::export::tmx::dec_u;
use crate::export::xml::{
    attr, attr_lit, attrs_view, decl, decl_view, empty, end, events_view, push_event, render_xml, start, tag_view,
    xml_document, XmlEvent, XmlEventView, XmlWriteError,
};
use crate::model::{Tileset, TilesetView};
use crate::text::dec_string_u64;

verus! {

/// Attributes of the `tileset` element; margin and spacing only when not zero.
pub open spec fn tileset_attrs(t: TilesetView) -> Seq<(Seq<char>, Seq<char>)> {
    seq![
        ("version"@, "1.10"@),
        ("tiledversion"@, "1.10.2"@),
        ("name"@, t.name),
        ("tilewidth"@, dec_u(t.tile_width)),
        ("tileheight"@, dec_u(t.tile_height)),
        ("tilecount"@, dec_u(t.tile_count)),
        ("columns"@, dec_u(t.columns)),
    ] + (if t.margin_x != 0 {
        seq![("margin"@, dec_u(t.margin_x))]
    } else {
        seq![]
    }) + (if t.spacing_x != 0 {
        seq![("spacing"@, dec_u(t.spacing_x))]
    } else {
        seq![]
    })
}

/// The events of a `.tsx` document: declaration, `tileset` element, its `image`.
pub open spec fn tsx_events(t: TilesetView) -> Seq<XmlEventView> {
    seq![
        decl_view(),
        XmlEventView::Start(tag_view("tileset"@, tileset_attrs(t))),
        XmlEventView::Empty(
            tag_view(
                "image"@,
                seq![("source"@, t.image_path), ("width"@, dec_u(t.image_width)), ("height"@, dec_u(t.image_height))],
            ),
        ),
        XmlEventView::End("tileset"@),
    ]
}

fn dec32(v: u32) -> (r: String)
    ensures
        r@ == dec_u(v),
{
    dec_string_u64(v as u64)
}

/// The events of the `.tsx` document for a tileset.
pub fn tsx_event_list(tileset: &Tileset) -> (r: Vec<XmlEvent>)
    ensures
        events_view(r@) == tsx_events(tileset@),
{
    let mut attrs: Vec<(String, String)> = Vec::new();
    attrs.push(attr_lit("version", "1.10"));
    attrs.push(attr_lit("tiledversion", "1.10.2"));
    attrs.push(attr("name", tileset.name.clone()));
    attrs.push(attr("tilewidth", dec32(tileset.tile_width)));
    attrs.push(attr("tileheight", dec32(tileset.tile_height)));
    attrs.push(attr("tilecount", dec32(tileset.tile_count)));
    attrs.push(attr("columns", dec32(tileset.columns)));
    if tileset.margin_x != 0 {
        attrs.push(attr("margin", dec32(tileset.margin_x)));
    }
    if tileset.spacing_x != 0 {
        attrs.push(attr("spacing", dec32(tileset.spacing_x)));
    }
    assert(attrs_view(attrs@) =~= tileset_attrs(tileset@));
    let mut img: Vec<(String, String)> = Vec::new();
    img.push(attr("source", tileset.image_path.clone()));
    img.push(attr("width", dec32(tileset.image_width)));
    img.push(attr("height", dec32(tileset.image_height)));
    assert(attrs_view(img@) =~= seq![
        ("source"@, tileset.image_path@),
        ("width"@, dec_u(tileset.image_width)),
        ("height"@, dec_u(tileset.image_height)),
    ]);
    let mut events: Vec<XmlEvent> = Vec::new();
    push_event(&mut events, decl());
    push_event(&mut events, start("tileset", attrs));
    push_event(&mut events, empty("image", img));
    push_event(&mut events, end("tileset"));
    assert(events_view(events@) =~= tsx_events(tileset@));
    events
}

/// The bytes of the `.tsx` document for a tileset (always produced).
pub fn tsx_document(tileset: &Tileset) -> (r: Result<Vec<u8>, XmlWriteError>)
    ensures
        r matches Ok(b) && b@ == xml_document(tsx_events(tileset@)),
{
    let events = tsx_event_list(tileset);
    render_xml(&events)
}

} // verus!
