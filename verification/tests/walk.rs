use als_clips::clip::RawClip;
use als_clips::error::AlsError;
use als_clips::scan::{scan_nodes, scan_text, XmlTree};
use als_clips::xml::{parse_document, XmlAttribute, XmlNode};

fn raw(start: &str, path: &str) -> RawClip {
    RawClip { start: start.to_string(), path: path.to_string() }
}

fn document() -> XmlNode {
    XmlNode { parent: None, element: false, name: String::new(), attributes: Vec::new() }
}

fn element(parent: usize, name: &str) -> XmlNode {
    XmlNode { parent: Some(parent), element: true, name: name.to_string(), attributes: Vec::new() }
}

fn valued(parent: usize, name: &str, value: &str) -> XmlNode {
    XmlNode {
        parent: Some(parent),
        element: true,
        name: name.to_string(),
        attributes: vec![XmlAttribute { name: "Value".to_string(), value: value.to_string() }],
    }
}

fn text(parent: usize) -> XmlNode {
    XmlNode { parent: Some(parent), element: false, name: String::new(), attributes: Vec::new() }
}

fn tagged<'a, 'input>(
    node: roxmltree::Node<'a, 'input>,
    tag: &str,
) -> Vec<roxmltree::Node<'a, 'input>> {
    node.children().filter(|child| child.has_tag_name(tag)).collect()
}

/// Walks the document with the parser's own tree, node by node.
fn walk_with_parser(xml: &str) -> Result<Vec<RawClip>, AlsError> {
    let doc = roxmltree::Document::parse(xml).map_err(|_| AlsError::Xml)?;
    let mut found = Vec::new();
    for node in doc.root_element().descendants() {
        for audio_clip in tagged(node, "AudioClip") {
            let mut start = String::new();
            let mut path = String::new();
            for sample_ref in tagged(audio_clip, "SampleRef") {
                for file_ref in tagged(sample_ref, "FileRef") {
                    for path_node in tagged(file_ref, "Path") {
                        path = path_node.attribute("Value").ok_or(AlsError::MissingValue)?.to_string();
                    }
                }
            }
            for start_node in tagged(audio_clip, "CurrentStart") {
                start = start_node.attribute("Value").ok_or(AlsError::MissingValue)?.to_string();
            }
            found.push(RawClip { start, path });
        }
    }
    Ok(found)
}

const NESTED: &str = "<Set>\
    <Track><AudioClip><CurrentStart Value=\"1\"/></AudioClip></Track>\
    <AudioClip><CurrentStart Value=\"2\"/></AudioClip>\
    <Track><Lane><AudioClip><CurrentStart Value=\"3\"/></AudioClip></Lane>\
      <AudioClip><CurrentStart Value=\"4\"/></AudioClip></Track>\
    </Set>";

#[test]
fn clips_come_in_the_order_of_their_parents() {
    let found = scan_text(NESTED).unwrap();
    assert_eq!(found, vec![raw("2", ""), raw("1", ""), raw("4", ""), raw("3", "")]);
}

#[test]
fn scan_agrees_with_a_walk_of_the_parsed_tree() {
    let documents = [
        NESTED,
        "<AudioClip><CurrentStart Value=\"1\"/></AudioClip>",
        "<AudioClip><AudioClip><CurrentStart Value=\"1\"/>\
            <AudioClip><CurrentStart Value=\"2\"/></AudioClip></AudioClip></AudioClip>",
        "<!-- head --><?pi x?><Set>text<AudioClip>more<CurrentStart Value=\"1\"/>\
            <!-- c --><SampleRef><FileRef><Path Value=\"a.wav\"/>tail</FileRef></SampleRef>\
            </AudioClip><![CDATA[<AudioClip/>]]></Set><!-- tail -->",
        "<Set><AudioClip><SampleRef><FileRef><Path Value=\"a\"/><Path Value=\"b\"/></FileRef>\
            <FileRef/></SampleRef><SampleRef><FileRef><Path Value=\"c\"/></FileRef></SampleRef>\
            <SampleRef/><CurrentStart Value=\"1\"/><CurrentStart Value=\"2\"/></AudioClip></Set>",
        "<Set><AudioClip><Path Value=\"direct\"/><FileRef><Path Value=\"short\"/></FileRef>\
            <SampleRef><Path Value=\"shorter\"/></SampleRef></AudioClip></Set>",
        "<Set xmlns:n=\"urn:n\" xmlns=\"urn:d\"><n:AudioClip><CurrentStart n:Value=\"9\"/>\
            </n:AudioClip><AudioClip><n:CurrentStart Other=\"0\" n:Value=\"7\" Value=\"8\"/>\
            </AudioClip></Set>",
        "<Set><AudioClip><CurrentStart value=\"1\"/></AudioClip></Set>",
        "<Set><AudioClip><CurrentStart Value=\"1\"/>\
            <SampleRef><FileRef><Path/></FileRef></SampleRef></AudioClip></Set>",
        "<Set><audioclip><CurrentStart Value=\"1\"/></audioclip></Set>",
        "<Set><AudioClip><CurrentStart Value=\"a &amp; b\"/>\
            <SampleRef><FileRef><Path Value=\"&#228;/&lt;x&gt;.wav\"/></FileRef></SampleRef>\
            </AudioClip></Set>",
        "<Set><AudioClip>",
        "",
    ];
    for xml in documents {
        assert_eq!(scan_text(xml), walk_with_parser(xml), "{}", xml);
    }
}

#[test]
fn root_element_is_no_clip_of_its_own() {
    let found = scan_text("<AudioClip><CurrentStart Value=\"1\"/></AudioClip>").unwrap();
    assert_eq!(found, Vec::new());
}

#[test]
fn last_path_and_last_start_win() {
    let xml = "<Set><AudioClip>\
        <SampleRef><FileRef><Path Value=\"a\"/><Path Value=\"b\"/></FileRef></SampleRef>\
        <SampleRef><FileRef><Path Value=\"c\"/></FileRef><FileRef/></SampleRef>\
        <CurrentStart Value=\"1\"/><CurrentStart Value=\"2\"/></AudioClip></Set>";
    assert_eq!(scan_text(xml), Ok(vec![raw("2", "c")]));
}

#[test]
fn only_the_full_chain_gives_a_path() {
    let xml = "<Set><AudioClip><Path Value=\"direct\"/><FileRef><Path Value=\"short\"/></FileRef>\
        <SampleRef><Path Value=\"shorter\"/></SampleRef><CurrentStart Value=\"1\"/>\
        </AudioClip></Set>";
    assert_eq!(scan_text(xml), Ok(vec![raw("1", "")]));
}

#[test]
fn tags_match_by_local_name() {
    let xml = "<Set xmlns:n=\"urn:n\"><n:AudioClip><n:CurrentStart Value=\"5\"/></n:AudioClip></Set>";
    assert_eq!(scan_text(xml), Ok(vec![raw("5", "")]));
}

#[test]
fn parse_document_lists_nodes_in_document_order() {
    let nodes = parse_document("<a x=\"1\" y=\"2\"><b/>t<c Value=\"v\"><d/></c></a><!--e-->").unwrap();
    assert_eq!(
        nodes,
        vec![
            document(),
            XmlNode {
                parent: Some(0),
                element: true,
                name: "a".to_string(),
                attributes: vec![
                    XmlAttribute { name: "x".to_string(), value: "1".to_string() },
                    XmlAttribute { name: "y".to_string(), value: "2".to_string() },
                ],
            },
            element(1, "b"),
            text(1),
            valued(1, "c", "v"),
            element(4, "d"),
            text(0),
        ]
    );
}

#[test]
fn parse_document_refuses_what_is_not_well_formed() {
    assert_eq!(parse_document("<a><b></a>"), Err(AlsError::Xml));
    assert_eq!(parse_document("<a/><b/>"), Err(AlsError::Xml));
    assert_eq!(parse_document("<a x=\"1\" x=\"2\"/>"), Err(AlsError::Xml));
}

#[test]
fn attribute_is_the_first_of_its_name() {
    let node = XmlNode {
        parent: Some(0),
        element: true,
        name: "Path".to_string(),
        attributes: vec![
            XmlAttribute { name: "Id".to_string(), value: "3".to_string() },
            XmlAttribute { name: "Value".to_string(), value: "first".to_string() },
            XmlAttribute { name: "Value".to_string(), value: "second".to_string() },
        ],
    };
    assert_eq!(node.attribute("Value"), Some(&"first".to_string()));
    assert_eq!(node.attribute("Id"), Some(&"3".to_string()));
    assert_eq!(node.attribute("value"), None);
    assert_eq!(document().attribute("Value"), None);
}

fn sample_tree() -> XmlTree {
    XmlTree::new(vec![
        document(),                   // 0
        text(0),                      // 1
        element(0, "Set"),            // 2
        element(2, "AudioClip"),      // 3
        valued(3, "CurrentStart", "1"), // 4
        element(2, "Track"),          // 5
        element(5, "AudioClip"),      // 6
        text(5),                      // 7
        element(5, "AudioClip"),      // 8
        valued(8, "CurrentStart", "2"), // 9
        element(8, "SampleRef"),      // 10
        element(10, "FileRef"),       // 11
        valued(11, "Path", "x.wav"),  // 12
        element(2, "AudioClip"),      // 13
        text(0),                      // 14
    ])
}

#[test]
fn walk_target_childs_lists_the_tagged_children() {
    let tree = sample_tree();
    assert_eq!(tree.len(), 15);
    assert_eq!(tree.walk_target_childs(2, "AudioClip"), vec![3, 13]);
    assert_eq!(tree.walk_target_childs(5, "AudioClip"), vec![6, 8]);
    assert_eq!(tree.walk_target_childs(2, "Track"), vec![5]);
    assert_eq!(tree.walk_target_childs(2, "CurrentStart"), Vec::<usize>::new());
    assert_eq!(tree.walk_target_childs(0, "Set"), vec![2]);
    assert_eq!(tree.walk_target_childs(0, ""), Vec::<usize>::new());
    assert_eq!(tree.walk_target_childs(12, "Path"), Vec::<usize>::new());
    assert_eq!(tree.walk_target_childs(99, "AudioClip"), Vec::<usize>::new());
}

#[test]
fn root_element_is_the_first_element_below_the_document() {
    assert_eq!(sample_tree().root_element(), Some(2));
    assert_eq!(XmlTree::new(Vec::new()).root_element(), None);
    assert_eq!(XmlTree::new(vec![document(), text(0)]).root_element(), None);
    let two = XmlTree::new(vec![document(), element(0, "a"), element(0, "b")]);
    assert_eq!(two.root_element(), Some(1));
}

#[test]
fn subtree_is_the_node_and_all_below_it() {
    let tree = sample_tree();
    assert_eq!(tree.subtree(2), (2..14).collect::<Vec<usize>>());
    assert_eq!(tree.subtree(5), (5..13).collect::<Vec<usize>>());
    assert_eq!(tree.subtree(8), vec![8, 9, 10, 11, 12]);
    assert_eq!(tree.subtree(14), vec![14]);
    assert_eq!(tree.subtree(0), (0..15).collect::<Vec<usize>>());
    assert_eq!(tree.subtree(15), Vec::<usize>::new());
}

#[test]
fn clip_nodes_follow_the_walk() {
    assert_eq!(sample_tree().clip_nodes(), vec![3, 13, 6, 8]);
}

#[test]
fn read_clip_reads_start_and_path() {
    let tree = sample_tree();
    assert_eq!(tree.read_clip(8), Some(raw("2", "x.wav")));
    assert_eq!(tree.read_clip(3), Some(raw("1", "")));
    assert_eq!(tree.read_clip(6), Some(raw("", "")));
    assert_eq!(tree.read_clip(99), Some(raw("", "")));
}

#[test]
fn scan_nodes_reads_each_clip() {
    assert_eq!(
        sample_tree().scan(),
        Ok(vec![raw("1", ""), raw("", ""), raw("", ""), raw("2", "x.wav")])
    );
    assert_eq!(scan_nodes(Vec::new()), Ok(Vec::new()));
    let missing = vec![
        document(),
        element(0, "Set"),
        element(1, "AudioClip"),
        element(2, "CurrentStart"),
    ];
    assert_eq!(scan_nodes(missing), Err(AlsError::MissingValue));
}

#[test]
fn nodes_outside_the_root_element_are_not_visited() {
    let nodes = vec![
        document(),
        element(0, "Set"),
        element(0, "Other"),
        valued(2, "AudioClip", "x"),
        element(1, "AudioClip"),
    ];
    assert_eq!(XmlTree::new(nodes).clip_nodes(), vec![4]);
}
