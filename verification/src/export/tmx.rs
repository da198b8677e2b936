//! The `.tmx` map document.
use vstd::prelude::*;

use crate::export::xml::{
    attr, attr_lit, decl, decl_view, empty, end, events_view, push_all, push_event, render_xml, start,
    string_of, tag_view, xml_document, XmlEvent, XmlEventView, XmlWriteError,
};
use crate::model::{
    InstanceObject, InstanceObjectView, Layer, LayerView, MapObject, MapObjectView, ObjectLayer, TileLayer,
    TileObjectData, TiledMap, TiledMapView, TilesetRef, TilesetRefView, ViewObject,
};
use crate::text::{dec_int, dec_nat, dec_string_i64, dec_string_u64, push_char, push_dec_u64};

verus! {

/// Concatenation of a sequence of event sequences.
pub open spec fn concat_events(s: Seq<Seq<XmlEventView>>) -> Seq<XmlEventView>
    decreases s.len(),
{
    if s.len() == 0 {
        seq![]
    } else {
        concat_events(s.drop_last()) + s.last()
    }
}

pub open spec fn dec_u(v: u32) -> Seq<char> {
    dec_nat(v as nat)
}

/// `<property name=".." type="int" value=".."/>`
pub open spec fn int_property(name: Seq<char>, value: Seq<char>) -> XmlEventView {
    XmlEventView::Empty(tag_view("property"@, seq![("name"@, name), ("type"@, "int"@), ("value"@, value)]))
}

/// A property list: the start tag, the properties, the end tag.
pub open spec fn properties(props: Seq<XmlEventView>) -> Seq<XmlEventView> {
    seq![XmlEventView::Start(tag_view("properties"@, seq![]))] + props + seq![XmlEventView::End("properties"@)]
}

/// Attributes of the `map` element.
pub open spec fn map_attrs(m: TiledMapView) -> Seq<(Seq<char>, Seq<char>)> {
    seq![
        ("version"@, "1.10"@),
        ("tiledversion"@, "1.10.2"@),
        ("orientation"@, "orthogonal"@),
        ("renderorder"@, "right-down"@),
        ("width"@, dec_u(m.width_tiles)),
        ("height"@, dec_u(m.height_tiles)),
        ("tilewidth"@, dec_u(m.tile_width)),
        ("tileheight"@, dec_u(m.tile_height)),
        ("infinite"@, "0"@),
        ("nextlayerid"@, dec_u(m.next_layer_id)),
        ("nextobjectid"@, dec_u(m.next_object_id)),
    ] + match m.background_color {
        Some(c) => seq![("backgroundcolor"@, c)],
        None => seq![],
    }
}

/// The decimal ids of a tile layer's cells, separated by commas.
pub open spec fn csv(data: Seq<u32>) -> Seq<char>
    decreases data.len(),
{
    if data.len() == 0 {
        seq![]
    } else if data.len() == 1 {
        dec_u(data[0])
    } else {
        csv(data.drop_last()) + seq![','] + dec_u(data.last())
    }
}

pub open spec fn instance_events(o: InstanceObjectView) -> Seq<XmlEventView> {
    let attrs = seq![("id"@, dec_u(o.id))] + match o.gid {
        Some(g) => seq![("gid"@, dec_u(g))],
        None => seq![],
    } + seq![
        ("type"@, o.obj_type),
        ("x"@, dec_int(o.x as int)),
        ("y"@, dec_int(o.y as int)),
        ("width"@, dec_int(o.width as int)),
        ("height"@, dec_int(o.height as int)),
    ];
    seq![XmlEventView::Start(tag_view("object"@, attrs))] + properties(
        seq![int_property("instanceId"@, dec_u(o.instance_id))],
    ) + seq![XmlEventView::End("object"@)]
}

pub open spec fn tile_object_events(o: TileObjectData) -> Seq<XmlEventView> {
    seq![
        XmlEventView::Empty(
            tag_view(
                "object"@,
                seq![
                    ("id"@, dec_u(o.id)),
                    ("gid"@, dec_u(o.gid)),
                    ("x"@, dec_int(o.x as int)),
                    ("y"@, dec_int(o.y as int)),
                    ("width"@, dec_int(o.width as int)),
                    ("height"@, dec_int(o.height as int)),
                ],
            ),
        ),
    ]
}

pub open spec fn view_object_events(o: ViewObject) -> Seq<XmlEventView> {
    seq![
        XmlEventView::Start(
            tag_view(
                "object"@,
                seq![
                    ("id"@, dec_u(o.id)),
                    ("class"@, "view"@),
                    ("x"@, dec_int(o.x as int)),
                    ("y"@, dec_int(o.y as int)),
                    ("width"@, dec_int(o.width as int)),
                    ("height"@, dec_int(o.height as int)),
                ],
            ),
        ),
    ] + properties(
        seq![
            int_property("portX"@, dec_int(o.port_x as int)),
            int_property("portY"@, dec_int(o.port_y as int)),
            int_property("portWidth"@, dec_u(o.port_width)),
            int_property("portHeight"@, dec_u(o.port_height)),
        ],
    ) + seq![XmlEventView::End("object"@)]
}

pub open spec fn object_events(o: MapObjectView) -> Seq<XmlEventView> {
    match o {
        MapObjectView::Instance(i) => instance_events(i),
        MapObjectView::TileObject(t) => tile_object_events(t),
        MapObjectView::View(v) => view_object_events(v),
    }
}

pub open spec fn layer_events(l: LayerView) -> Seq<XmlEventView> {
    match l {
        LayerView::Tile(t) => seq![
            XmlEventView::Start(
                tag_view(
                    "layer"@,
                    seq![
                        ("id"@, dec_u(t.id)),
                        ("name"@, t.name),
                        ("width"@, dec_u(t.width)),
                        ("height"@, dec_u(t.height)),
                    ],
                ),
            ),
            XmlEventView::Start(tag_view("data"@, seq![("encoding"@, "csv"@)])),
            XmlEventView::Text(csv(t.data)),
            XmlEventView::End("data"@),
            XmlEventView::End("layer"@),
        ],
        LayerView::Object(o) => seq![
            XmlEventView::Start(tag_view("objectgroup"@, seq![("id"@, dec_u(o.id)), ("name"@, o.name)])),
        ] + concat_events(o.objects.map_values(|x: MapObjectView| object_events(x))) + seq![
            XmlEventView::End("objectgroup"@),
        ],
    }
}

pub open spec fn ref_event(r: TilesetRefView) -> XmlEventView {
    XmlEventView::Empty(tag_view("tileset"@, seq![("firstgid"@, dec_u(r.first_gid)), ("source"@, r.tsx_path)]))
}

/// The events of a `.tmx` document: declaration, `map` element with the room speed as a
/// property, tileset references, then the layers in order.
pub open spec fn tmx_events(m: TiledMapView) -> Seq<XmlEventView> {
    seq![decl_view(), XmlEventView::Start(tag_view("map"@, map_attrs(m)))] + properties(
        seq![int_property("speed"@, dec_u(m.speed))],
    ) + m.tilesets.map_values(|r: TilesetRefView| ref_event(r)) + concat_events(
        m.layers.map_values(|l: LayerView| layer_events(l)),
    ) + seq![XmlEventView::End("map"@)]
}

fn dec32(v: u32) -> (r: String)
    ensures
        r@ == dec_u(v),
{
    dec_string_u64(v as u64)
}

fn dec_signed(v: i64) -> (r: String)
    ensures
        r@ == dec_int(v as int),
{
    dec_string_i64(v)
}

fn int_property_event(name: &str, value: String) -> (r: XmlEvent)
    ensures
        r@ == int_property(name@, value@),
{
    let mut attrs: Vec<(String, String)> = Vec::new();
    attrs.push(attr("name", string_of(name)));
    attrs.push(attr_lit("type", "int"));
    attrs.push(attr("value", value));
    let r = empty("property", attrs);
    assert(crate::export::xml::attrs_view(attrs@) =~= seq![("name"@, name@), ("type"@, "int"@), ("value"@, value@)]);
    r
}

fn push_properties(events: &mut Vec<XmlEvent>, props: Vec<XmlEvent>)
    ensures
        events_view(final(events)@) == events_view(old(events)@) + properties(events_view(props@)),
{
    let ghost before = events_view(events@);
    let no_attrs: Vec<(String, String)> = Vec::new();
    assert(crate::export::xml::attrs_view(no_attrs@) =~= seq![]);
    push_event(events, start("properties", no_attrs));
    let ghost p = events_view(props@);
    push_all(events, props);
    push_event(events, end("properties"));
    assert(events_view(events@) =~= before + properties(p));
}

fn csv_string(data: &Vec<u32>) -> (r: String)
    ensures
        r@ == csv(data@),
{
    let mut s = String::new();
    let mut i: usize = 0;
    while i < data.len()
        invariant
            i <= data@.len(),
            s@ == csv(data@.subrange(0, i as int)),
        decreases data.len() - i,
    {
        let ghost prefix = data@.subrange(0, i as int);
        let ghost next = data@.subrange(0, i + 1);
        assert(next.drop_last() =~= prefix);
        if i > 0 {
            push_char(&mut s, ',');
        }
        push_dec_u64(&mut s, data[i] as u64);
        if i == 0 {
            assert(s@ =~= csv(next));
        } else {
            assert(s@ =~= csv(next));
        }
        i += 1;
    }
    assert(data@.subrange(0, data@.len() as int) =~= data@);
    s
}

fn instance_object_events(o: &InstanceObject) -> (r: Vec<XmlEvent>)
    ensures
        events_view(r@) == instance_events(o@),
{
    let mut attrs: Vec<(String, String)> = Vec::new();
    attrs.push(attr("id", dec32(o.id)));
    let ghost a1 = crate::export::xml::attrs_view(attrs@);
    match o.gid {
        Some(g) => attrs.push(attr("gid", dec32(g))),
        None => {},
    }
    let ghost a2 = crate::export::xml::attrs_view(attrs@);
    attrs.push(attr("type", o.obj_type.clone()));
    attrs.push(attr("x", dec_signed(o.x)));
    attrs.push(attr("y", dec_signed(o.y)));
    attrs.push(attr("width", dec_signed(o.width)));
    attrs.push(attr("height", dec_signed(o.height)));
    let ghost expected = seq![("id"@, dec_u(o.id))] + match o.gid {
        Some(g) => seq![("gid"@, dec_u(g))],
        None => seq![],
    } + seq![
        ("type"@, o.obj_type@),
        ("x"@, dec_int(o.x as int)),
        ("y"@, dec_int(o.y as int)),
        ("width"@, dec_int(o.width as int)),
        ("height"@, dec_int(o.height as int)),
    ];
    assert(crate::export::xml::attrs_view(attrs@) =~= expected);
    let mut events: Vec<XmlEvent> = Vec::new();
    push_event(&mut events, start("object", attrs));
    let mut props: Vec<XmlEvent> = Vec::new();
    push_event(&mut props, int_property_event("instanceId", dec32(o.instance_id)));
    assert(events_view(props@) =~= seq![int_property("instanceId"@, dec_u(o.instance_id))]);
    push_properties(&mut events, props);
    push_event(&mut events, end("object"));
    assert(events_view(events@) =~= instance_events(o@));
    events
}

fn tile_object_event(o: &TileObjectData) -> (r: Vec<XmlEvent>)
    ensures
        events_view(r@) == tile_object_events(*o),
{
    let mut attrs: Vec<(String, String)> = Vec::new();
    attrs.push(attr("id", dec32(o.id)));
    attrs.push(attr("gid", dec32(o.gid)));
    attrs.push(attr("x", dec_signed(o.x)));
    attrs.push(attr("y", dec_signed(o.y)));
    attrs.push(attr("width", dec_signed(o.width)));
    attrs.push(attr("height", dec_signed(o.height)));
    assert(crate::export::xml::attrs_view(attrs@) =~= seq![
        ("id"@, dec_u(o.id)),
        ("gid"@, dec_u(o.gid)),
        ("x"@, dec_int(o.x as int)),
        ("y"@, dec_int(o.y as int)),
        ("width"@, dec_int(o.width as int)),
        ("height"@, dec_int(o.height as int)),
    ]);
    let mut events: Vec<XmlEvent> = Vec::new();
    push_event(&mut events, empty("object", attrs));
    assert(events_view(events@) =~= tile_object_events(*o));
    events
}

fn view_object_event_list(o: &ViewObject) -> (r: Vec<XmlEvent>)
    ensures
        events_view(r@) == view_object_events(*o),
{
    let mut attrs: Vec<(String, String)> = Vec::new();
    attrs.push(attr("id", dec32(o.id)));
    attrs.push(attr_lit("class", "view"));
    attrs.push(attr("x", dec_signed(o.x)));
    attrs.push(attr("y", dec_signed(o.y)));
    attrs.push(attr("width", dec_signed(o.width)));
    attrs.push(attr("height", dec_signed(o.height)));
    assert(crate::export::xml::attrs_view(attrs@) =~= seq![
        ("id"@, dec_u(o.id)),
        ("class"@, "view"@),
        ("x"@, dec_int(o.x as int)),
        ("y"@, dec_int(o.y as int)),
        ("width"@, dec_int(o.width as int)),
        ("height"@, dec_int(o.height as int)),
    ]);
    let mut events: Vec<XmlEvent> = Vec::new();
    push_event(&mut events, start("object", attrs));
    let mut props: Vec<XmlEvent> = Vec::new();
    push_event(&mut props, int_property_event("portX", dec_signed(o.port_x as i64)));
    push_event(&mut props, int_property_event("portY", dec_signed(o.port_y as i64)));
    push_event(&mut props, int_property_event("portWidth", dec32(o.port_width)));
    push_event(&mut props, int_property_event("portHeight", dec32(o.port_height)));
    assert(events_view(props@) =~= seq![
        int_property("portX"@, dec_int(o.port_x as int)),
        int_property("portY"@, dec_int(o.port_y as int)),
        int_property("portWidth"@, dec_u(o.port_width)),
        int_property("portHeight"@, dec_u(o.port_height)),
    ]);
    push_properties(&mut events, props);
    push_event(&mut events, end("object"));
    assert(events_view(events@) =~= view_object_events(*o));
    events
}

fn map_object_events(o: &MapObject) -> (r: Vec<XmlEvent>)
    ensures
        events_view(r@) == object_events(o@),
{
    match o {
        MapObject::Instance(i) => instance_object_events(i),
        MapObject::TileObject(t) => tile_object_event(t),
        MapObject::View(v) => view_object_event_list(v),
    }
}

fn object_layer_events(l: &ObjectLayer) -> (r: Vec<XmlEvent>)
    ensures
        events_view(r@) == layer_events(LayerView::Object(l@)),
{
    let mut attrs: Vec<(String, String)> = Vec::new();
    attrs.push(attr("id", dec32(l.id)));
    attrs.push(attr("name", l.name.clone()));
    assert(crate::export::xml::attrs_view(attrs@) =~= seq![("id"@, dec_u(l.id)), ("name"@, l.name@)]);
    let mut events: Vec<XmlEvent> = Vec::new();
    push_event(&mut events, start("objectgroup", attrs));
    let ghost head = events_view(events@);
    let ghost objs = crate::model::objects_view(l.objects@);
    let mut i: usize = 0;
    while i < l.objects.len()
        invariant
            objs == crate::model::objects_view(l.objects@),
            i <= l.objects@.len(),
            events_view(events@) == head + concat_events(
                objs.subrange(0, i as int).map_values(|x: MapObjectView| object_events(x)),
            ),
        decreases l.objects.len() - i,
    {
        let more = map_object_events(&l.objects[i]);
        let ghost mv = events_view(more@);
        push_all(&mut events, more);
        let ghost s0 = objs.subrange(0, i as int).map_values(|x: MapObjectView| object_events(x));
        let ghost s1 = objs.subrange(0, i + 1).map_values(|x: MapObjectView| object_events(x));
        assert(s1.drop_last() =~= s0);
        assert(s1.last() == mv);
        assert(head + concat_events(s1) =~= head + concat_events(s0) + mv);
        i += 1;
    }
    assert(objs.subrange(0, objs.len() as int) =~= objs);
    push_event(&mut events, end("objectgroup"));
    assert(events_view(events@) =~= layer_events(LayerView::Object(l@)));
    events
}

fn tile_layer_events(l: &TileLayer) -> (r: Vec<XmlEvent>)
    ensures
        events_view(r@) == layer_events(LayerView::Tile(l@)),
{
    let mut attrs: Vec<(String, String)> = Vec::new();
    attrs.push(attr("id", dec32(l.id)));
    attrs.push(attr("name", l.name.clone()));
    attrs.push(attr("width", dec32(l.width)));
    attrs.push(attr("height", dec32(l.height)));
    let mut data_attrs: Vec<(String, String)> = Vec::new();
    data_attrs.push(attr_lit("encoding", "csv"));
    assert(crate::export::xml::attrs_view(attrs@) =~= seq![
        ("id"@, dec_u(l.id)),
        ("name"@, l.name@),
        ("width"@, dec_u(l.width)),
        ("height"@, dec_u(l.height)),
    ]);
    assert(crate::export::xml::attrs_view(data_attrs@) =~= seq![("encoding"@, "csv"@)]);
    let mut events: Vec<XmlEvent> = Vec::new();
    push_event(&mut events, start("layer", attrs));
    push_event(&mut events, start("data", data_attrs));
    push_event(&mut events, XmlEvent::Text(csv_string(&l.data)));
    push_event(&mut events, end("data"));
    push_event(&mut events, end("layer"));
    assert(events_view(events@) =~= layer_events(LayerView::Tile(l@)));
    events
}

fn map_layer_events(l: &Layer) -> (r: Vec<XmlEvent>)
    ensures
        events_view(r@) == layer_events(l@),
{
    match l {
        Layer::Tile(t) => tile_layer_events(t),
        Layer::Object(o) => object_layer_events(o),
    }
}

fn tileset_ref_event(r: &TilesetRef) -> (e: XmlEvent)
    ensures
        e@ == ref_event(r@),
{
    let mut attrs: Vec<(String, String)> = Vec::new();
    attrs.push(attr("firstgid", dec32(r.first_gid)));
    attrs.push(attr("source", r.tsx_path.clone()));
    assert(crate::export::xml::attrs_view(attrs@) =~= seq![("firstgid"@, dec_u(r.first_gid)), ("source"@, r.tsx_path@)]);
    let e = empty("tileset", attrs);
    assert(e@ == ref_event(r@));
    e
}

/// The events of the `.tmx` document for a map.
pub fn tmx_event_list(map: &TiledMap) -> (r: Vec<XmlEvent>)
    ensures
        events_view(r@) == tmx_events(map@),
{
    let mut attrs: Vec<(String, String)> = Vec::new();
    attrs.push(attr_lit("version", "1.10"));
    attrs.push(attr_lit("tiledversion", "1.10.2"));
    attrs.push(attr_lit("orientation", "orthogonal"));
    attrs.push(attr_lit("renderorder", "right-down"));
    attrs.push(attr("width", dec32(map.width_tiles)));
    attrs.push(attr("height", dec32(map.height_tiles)));
    attrs.push(attr("tilewidth", dec32(map.tile_width)));
    attrs.push(attr("tileheight", dec32(map.tile_height)));
    attrs.push(attr_lit("infinite", "0"));
    attrs.push(attr("nextlayerid", dec32(map.next_layer_id)));
    attrs.push(attr("nextobjectid", dec32(map.next_object_id)));
    match &map.background_color {
        Some(c) => attrs.push(attr("backgroundcolor", c.clone())),
        None => {},
    }
    assert(crate::export::xml::attrs_view(attrs@) =~= map_attrs(map@));
    let mut events: Vec<XmlEvent> = Vec::new();
    push_event(&mut events, decl());
    push_event(&mut events, start("map", attrs));
    let mut props: Vec<XmlEvent> = Vec::new();
    push_event(&mut props, int_property_event("speed", dec32(map.speed)));
    assert(events_view(props@) =~= seq![int_property("speed"@, dec_u(map.speed))]);
    push_properties(&mut events, props);
    let ghost head = events_view(events@);
    let ghost refs = crate::model::refs_view(map.tilesets@);
    let mut i: usize = 0;
    while i < map.tilesets.len()
        invariant
            refs == crate::model::refs_view(map.tilesets@),
            i <= map.tilesets@.len(),
            events_view(events@) == head + refs.subrange(0, i as int).map_values(|r: TilesetRefView| ref_event(r)),
        decreases map.tilesets.len() - i,
    {
        push_event(&mut events, tileset_ref_event(&map.tilesets[i]));
        assert(refs.subrange(0, i + 1).map_values(|r: TilesetRefView| ref_event(r)) =~= refs.subrange(
            0,
            i as int,
        ).map_values(|r: TilesetRefView| ref_event(r)).push(ref_event(refs[i as int])));
        i += 1;
    }
    assert(refs.subrange(0, refs.len() as int) =~= refs);
    let ghost head2 = events_view(events@);
    let ghost layers = crate::model::layers_view(map.layers@);
    let mut j: usize = 0;
    while j < map.layers.len()
        invariant
            layers == crate::model::layers_view(map.layers@),
            j <= map.layers@.len(),
            events_view(events@) == head2 + concat_events(
                layers.subrange(0, j as int).map_values(|l: LayerView| layer_events(l)),
            ),
        decreases map.layers.len() - j,
    {
        let more = map_layer_events(&map.layers[j]);
        let ghost mv = events_view(more@);
        push_all(&mut events, more);
        let ghost s0 = layers.subrange(0, j as int).map_values(|l: LayerView| layer_events(l));
        let ghost s1 = layers.subrange(0, j + 1).map_values(|l: LayerView| layer_events(l));
        assert(s1.drop_last() =~= s0);
        assert(s1.last() == mv);
        assert(head2 + concat_events(s1) =~= head2 + concat_events(s0) + mv);
        j += 1;
    }
    assert(layers.subrange(0, layers.len() as int) =~= layers);
    push_event(&mut events, end("map"));
    assert(events_view(events@) =~= tmx_events(map@));
    events
}

/// The bytes of the `.tmx` document for a map (always produced).
pub fn tmx_document(map: &TiledMap) -> (r: Result<Vec<u8>, XmlWriteError>)
    ensures
        r matches Ok(b) && b@ == xml_document(tmx_events(map@)),
{
    let events = tmx_event_list(map);
    render_xml(&events)
}


/// An element's attribute `name` is there and every attribute of that name has `value`.
pub open spec fn attr_is(attrs: Seq<(Seq<char>, Seq<char>)>, name: Seq<char>, value: Seq<char>) -> bool {
    &&& exists|i: int| 0 <= i < attrs.len() && (#[trigger] attrs[i]).0 == name
    &&& forall|i: int| 0 <= i < attrs.len() && (#[trigger] attrs[i]).0 == name ==> attrs[i].1 == value
}

/// The `.tmx` document opens a `map` element whose `width` and `height` are the decimal map
/// size in tiles and whose `tilewidth` and `tileheight` are the decimal tile size in pixels.
pub proof fn lemma_tmx_map_size(m: TiledMapView)
    ensures
        tmx_events(m)[1] matches XmlEventView::Start(t) && t.name == "map"@ && attr_is(
            t.attrs,
            "width"@,
            dec_nat(m.width_tiles as nat),
        ) && attr_is(t.attrs, "height"@, dec_nat(m.height_tiles as nat)) && attr_is(
            t.attrs,
            "tilewidth"@,
            dec_nat(m.tile_width as nat),
        ) && attr_is(t.attrs, "tileheight"@, dec_nat(m.tile_height as nat)),
{
    reveal_strlit("version");
    reveal_strlit("tiledversion");
    reveal_strlit("orientation");
    reveal_strlit("renderorder");
    reveal_strlit("width");
    reveal_strlit("height");
    reveal_strlit("tilewidth");
    reveal_strlit("tileheight");
    reveal_strlit("infinite");
    reveal_strlit("nextlayerid");
    reveal_strlit("nextobjectid");
    reveal_strlit("backgroundcolor");
    let ev = tmx_events(m);
    assert(ev[1] == XmlEventView::Start(tag_view("map"@, map_attrs(m))));
    let a = map_attrs(m);
    assert(a[4] == ("width"@, dec_nat(m.width_tiles as nat)));
    assert(a[5] == ("height"@, dec_nat(m.height_tiles as nat)));
    assert(a[6] == ("tilewidth"@, dec_nat(m.tile_width as nat)));
    assert(a[7] == ("tileheight"@, dec_nat(m.tile_height as nat)));
    assert(a.len() >= 11);
    assert forall|i: int| 0 <= i < a.len() implies {
        &&& (#[trigger] a[i]).0 == "width"@ ==> i == 4
        &&& a[i].0 == "height"@ ==> i == 5
        &&& a[i].0 == "tilewidth"@ ==> i == 6
        &&& a[i].0 == "tileheight"@ ==> i == 7
    } by {
        if i >= 11 {
            assert(a[i].0 == "backgroundcolor"@);
        }
        assert(a[i].0.len() != "width"@.len() || i == 4);
        assert(a[i].0.len() != "height"@.len() || i == 5);
        if a[i].0 == "tilewidth"@ && i != 6 {
            assert(a[i].0[0] == "tilewidth"@[0]);
        }
        if a[i].0 == "tileheight"@ && i != 7 {
            assert(a[i].0[4] == "tileheight"@[4]);
        }
    }
}

} // verus!
