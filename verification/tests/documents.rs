use colorust::ffmpeg::FilterExposure;
use colorust::mlt::{
    add_filtergraph_to_producers, get_filter_strings, get_property_value, Element, FilterGraphMap,
};

fn convert(node: roxmltree::Node) -> Element {
    Element {
        tag: node.tag_name().name().to_string(),
        attrs: node
            .attributes()
            .map(|a| (a.name().to_string(), a.value().to_string()))
            .collect(),
        text: node.text().map(|t| t.to_string()),
        children: node.children().filter(|c| c.is_element()).map(convert).collect(),
    }
}

#[test]
fn properties() {
    let xml = r#"
           <filter id="filter6">
            <property name="mlt_service">avfilter.exposure</property>
            <property name="kdenlive_id">avfilter.exposure</property>
            <property name="av.exposure">00:00:00.000=0</property>
            <property name="av.black">00:00:00.000=0</property>
            <property name="kdenlive:collapsed">1</property>
            <property name="disable">1</property>
           </filter>
        "#;
    let doc = roxmltree::Document::parse(xml).unwrap();
    let root = convert(doc.root());

    assert_eq!(
        get_property_value(&root, "mlt_service"),
        Some("avfilter.exposure".to_string())
    );
    assert_eq!(get_property_value(&root, "av.exposure"), Some("0".to_string()));
}

#[test]
fn exposure_from_xml() {
    let xml = r#"
           <filter id="filter6">
            <property name="mlt_service">avfilter.exposure</property>
            <property name="kdenlive_id">avfilter.exposure</property>
            <property name="av.exposure">00:00:00.000=0</property>
            <property name="av.black">00:00:00.000=0</property>
            <property name="kdenlive:collapsed">1</property>
            <property name="disable">1</property>
           </filter>
        "#;
    let doc = roxmltree::Document::parse(xml).unwrap();
    let root = convert(doc.root());

    let filter = FilterExposure::from_element(&root);
    assert_eq!(
        filter,
        Some(FilterExposure {
            is_active: false,
            exposure: "0".to_string(),
            black: "0".to_string(),
        })
    );
}

const TWO_PRODUCER_DOC: &str = r#"<?xml version="1.0" standalone="no"?>
<mlt LC_NUMERIC="C" version="7.9.0">
 <producer id="producer0">
  <property name="resource">/media/one.mp4</property>
  <property name="kdenlive:originalurl">/media/one.mp4</property>
 </producer>
 <chain id="chain1">
  <property name="resource">/media/two.mp4</property>
 </chain>
 <playlist id="playlist0">
  <entry producer="producer0" in="0" out="10">
   <filter id="filter0">
    <property name="mlt_service">avfilter.exposure</property>
    <property name="av.exposure">00:00:00.000=0.5</property>
    <property name="av.black">0</property>
   </filter>
  </entry>
  <entry producer="chain1" in="0" out="10">
   <filter id="filter1">
    <property name="mlt_service">avfilter.colortemperature</property>
    <property name="av.temperature">7000</property>
   </filter>
  </entry>
 </playlist>
</mlt>
"#;

fn compile(xml: &str) -> FilterGraphMap {
    let doc = roxmltree::Document::parse(xml).unwrap();
    let root = convert(doc.root());
    get_filter_strings(&root)
}

#[test]
fn compile_two_producers() {
    let map = compile(TWO_PRODUCER_DOC);
    assert_eq!(map.len(), 2);
    assert_eq!(
        map.get("/media/one.mp4").map(|s| s.as_str()),
        Some("exposure=exposure=0.5:black=0")
    );
    assert_eq!(
        map.get("/media/two.mp4").map(|s| s.as_str()),
        Some("colortemperature=temperature=7000:pl=1")
    );
}

#[test]
fn originalurl_preferred_over_resource() {
    let xml = r#"<mlt>
 <producer id="p0">
  <property name="resource">proxy/one.mp4</property>
  <property name="kdenlive:originalurl">/media/one.mp4</property>
 </producer>
 <playlist id="pl">
  <entry producer="p0">
   <filter id="f0">
    <property name="mlt_service">avfilter.colortemperature</property>
    <property name="av.temperature">5000</property>
   </filter>
  </entry>
 </playlist>
</mlt>"#;
    let map = compile(xml);
    assert_eq!(map.len(), 1);
    assert!(map.get("/media/one.mp4").is_some());
    assert!(map.get("proxy/one.mp4").is_none());
}

#[test]
fn inactive_filter_excluded_from_join() {
    let xml = r#"<mlt>
 <producer id="p0">
  <property name="resource">/media/one.mp4</property>
 </producer>
 <playlist id="pl">
  <entry producer="p0">
   <filter id="f0">
    <property name="mlt_service">avfilter.exposure</property>
    <property name="av.exposure">1</property>
    <property name="av.black">0</property>
   </filter>
   <filter id="f1">
    <property name="mlt_service">avfilter.colortemperature</property>
    <property name="av.temperature">5000</property>
    <property name="disable">1</property>
   </filter>
  </entry>
 </playlist>
</mlt>"#;
    let map = compile(xml);
    assert_eq!(map.get("/media/one.mp4").map(|s| s.as_str()), Some("exposure=exposure=1:black=0"));
}

#[test]
fn only_inactive_filters_yield_no_entry() {
    let xml = r#"<mlt>
 <producer id="p0">
  <property name="resource">/media/one.mp4</property>
 </producer>
 <playlist id="pl">
  <entry producer="p0">
   <filter id="f0">
    <property name="mlt_service">avfilter.exposure</property>
    <property name="av.exposure">1</property>
    <property name="av.black">0</property>
    <property name="disable">1</property>
   </filter>
  </entry>
 </playlist>
</mlt>"#;
    let map = compile(xml);
    assert_eq!(map.len(), 0);
    assert!(map.get("/media/one.mp4").is_none());
}

#[test]
fn filters_kept_in_document_order() {
    let xml = r#"<mlt>
 <producer id="p0">
  <property name="resource">/media/one.mp4</property>
 </producer>
 <playlist id="pl">
  <entry producer="p0">
   <filter id="f0">
    <property name="mlt_service">avfilter.lut3d</property>
    <property name="av.file">a.cube</property>
    <property name="av.interp">nearest</property>
   </filter>
   <filter id="f1">
    <property name="mlt_service">avfilter.exposure</property>
    <property name="av.exposure">1</property>
    <property name="av.black">0</property>
   </filter>
  </entry>
 </playlist>
</mlt>"#;
    let map = compile(xml);
    assert_eq!(
        map.get("/media/one.mp4").map(|s| s.as_str()),
        Some("lut3d=file=a.cube:interp=nearest,exposure=exposure=1:black=0")
    );
}

#[test]
fn producer_without_identity_dropped() {
    let xml = r#"<mlt>
 <producer id="p0">
  <property name="length">100</property>
 </producer>
 <playlist id="pl">
  <entry producer="p0">
   <filter id="f0">
    <property name="mlt_service">avfilter.exposure</property>
    <property name="av.exposure">1</property>
    <property name="av.black">0</property>
   </filter>
  </entry>
 </playlist>
</mlt>"#;
    let map = compile(xml);
    assert_eq!(map.len(), 0);
}

#[test]
fn later_entry_overrides_same_identity() {
    let xml = r#"<mlt>
 <producer id="p0">
  <property name="resource">/media/one.mp4</property>
 </producer>
 <producer id="p1">
  <property name="resource">/media/one.mp4</property>
 </producer>
 <playlist id="pl">
  <entry producer="p0">
   <filter id="f0">
    <property name="mlt_service">avfilter.colortemperature</property>
    <property name="av.temperature">5000</property>
   </filter>
  </entry>
  <entry producer="p1">
   <filter id="f1">
    <property name="mlt_service">avfilter.colortemperature</property>
    <property name="av.temperature">9000</property>
   </filter>
  </entry>
 </playlist>
</mlt>"#;
    let map = compile(xml);
    assert_eq!(map.len(), 1);
    assert_eq!(
        map.get("/media/one.mp4").map(|s| s.as_str()),
        Some("colortemperature=temperature=9000:pl=1")
    );
}

#[test]
fn unrecognized_filters_skipped() {
    let xml = r#"<mlt>
 <producer id="p0">
  <property name="resource">/media/one.mp4</property>
 </producer>
 <playlist id="pl">
  <entry producer="p0">
   <filter id="f0">
    <property name="mlt_service">avfilter.unsharp</property>
    <property name="av.amount">1</property>
   </filter>
  </entry>
 </playlist>
</mlt>"#;
    let map = compile(xml);
    assert_eq!(map.len(), 0);
}

#[test]
fn compile_wf_checks_document_shape() {
    let ok = convert(roxmltree::Document::parse(TWO_PRODUCER_DOC).unwrap().root());
    assert!(colorust::mlt::check_compile_wf(&ok));
    let missing_id = convert(
        roxmltree::Document::parse("<mlt><producer><property name=\"resource\">x</property></producer></mlt>")
            .unwrap()
            .root(),
    );
    assert!(!colorust::mlt::check_compile_wf(&missing_id));
    let missing_ref = convert(
        roxmltree::Document::parse("<mlt><playlist id=\"pl\"><entry/></playlist></mlt>")
            .unwrap()
            .root(),
    );
    assert!(!colorust::mlt::check_compile_wf(&missing_ref));
    let no_root = Element { tag: String::new(), attrs: vec![], text: None, children: vec![] };
    assert!(!colorust::mlt::check_compile_wf(&no_root));
}

fn single_map(key: &str, value: &str) -> FilterGraphMap {
    let mut m = FilterGraphMap::new();
    m.insert(key.to_string(), value.to_string());
    m
}

const REWRITE_INPUT: &str = "<mlt>\n <producer id=\"p0\">\n  <property name=\"resource\">/media/one.mp4</property>\n  <property name=\"filtergraph\">old=1</property>\n </producer>\n <playlist id=\"pl\"/>\n</mlt>";

#[test]
fn rewrite_inserts_before_resource_line() {
    let m = single_map("/media/one.mp4", "exposure=exposure=1:black=0");
    let out = add_filtergraph_to_producers(REWRITE_INPUT.to_string(), &m, true, None);
    let expected = "<mlt>\n <producer id=\"p0\">\n  <property name=\"filtergraph\">exposure=exposure=1:black=0</property>\n  <property name=\"resource\">/media/one.mp4</property>\n </producer>\n <playlist id=\"pl\"/>\n</mlt>";
    assert_eq!(out, expected);
}

#[test]
fn rewrite_keeps_old_lines_without_delete() {
    let m = single_map("/media/nowhere.mp4", "eq=contrast=1");
    let out = add_filtergraph_to_producers(REWRITE_INPUT.to_string(), &m, false, None);
    assert_eq!(out, REWRITE_INPUT);
}

#[test]
fn rewrite_removes_all_filtergraph_lines() {
    let m = FilterGraphMap::new();
    let out = add_filtergraph_to_producers(REWRITE_INPUT.to_string(), &m, true, None);
    let expected = "<mlt>\n <producer id=\"p0\">\n  <property name=\"resource\">/media/one.mp4</property>\n </producer>\n <playlist id=\"pl\"/>\n</mlt>";
    assert_eq!(out, expected);
}

#[test]
fn rewrite_appends_extra_filter() {
    let m = single_map("/media/one.mp4", "eq=contrast=1");
    let out = add_filtergraph_to_producers(
        REWRITE_INPUT.to_string(),
        &m,
        true,
        Some("scale=1280:720".to_string()),
    );
    assert!(out.contains("<property name=\"filtergraph\">eq=contrast=1,scale=1280:720</property>"));
}

#[test]
fn rewrite_twice_is_idempotent() {
    let m = single_map("/media/one.mp4", "exposure=exposure=1:black=0");
    let once = add_filtergraph_to_producers(REWRITE_INPUT.to_string(), &m, true, None);
    let twice = add_filtergraph_to_producers(once.clone(), &m, true, None);
    assert_eq!(once, twice);
}

#[test]
fn unrelated_lines_pass_through_unchanged() {
    let m = single_map("/media/one.mp4", "eq=contrast=1");
    let out = add_filtergraph_to_producers(REWRITE_INPUT.to_string(), &m, true, None);
    let out_lines: Vec<&str> = out.lines().collect();
    for line in REWRITE_INPUT.lines() {
        if !line.contains("name=\"filtergraph\"") {
            assert!(out_lines.contains(&line), "line lost: {line:?}");
        }
    }
}

#[test]
fn rewrite_normalizes_line_endings() {
    let m = FilterGraphMap::new();
    let input = "<mlt>\r\n <playlist id=\"pl\"/>\r\n</mlt>".to_string();
    let out = add_filtergraph_to_producers(input, &m, false, None);
    assert_eq!(out, "<mlt>\n <playlist id=\"pl\"/>\n</mlt>");
}

#[test]
fn rewrite_matches_value_of_property_line() {
    let m = single_map("/media/a \"b\".mp4", "eq=contrast=1");
    let input = "  <property name=\"resource\">/media/a \"b\".mp4</property>".to_string();
    let out = add_filtergraph_to_producers(input.clone(), &m, false, None);
    let expected = format!(
        "  <property name=\"filtergraph\">eq=contrast=1</property>\n{}",
        input
    );
    assert_eq!(out, expected);
}

#[test]
fn end_to_end_compile_and_rewrite() {
    let map = compile(TWO_PRODUCER_DOC);
    let out = add_filtergraph_to_producers(TWO_PRODUCER_DOC.to_string(), &map, true, None);
    assert!(out.contains(
        "  <property name=\"filtergraph\">exposure=exposure=0.5:black=0</property>\n  <property name=\"resource\">/media/one.mp4</property>"
    ));
    assert!(out.contains(
        "  <property name=\"filtergraph\">colortemperature=temperature=7000:pl=1</property>\n  <property name=\"resource\">/media/two.mp4</property>"
    ));
    // running the rewriter again on its own output changes nothing
    let again = add_filtergraph_to_producers(out.clone(), &map, true, None);
    assert_eq!(out, again);
}
