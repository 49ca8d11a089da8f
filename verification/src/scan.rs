//! The structural scan: which nodes the walk visits, and what it reads there.

use crate::clip::{raw_clips_model, RawClip, RawClipModel};
use crate::error::AlsError;
use crate::gzip::{inflate, inflate_result};
use crate::xml::{
    attribute_value, document_model, parse_document, xml_document, NodeModel, XmlNode,
};
use vstd::prelude::*;

verus! {

/// The positions `0, 1, .., n - 1` in their order.
pub open spec fn positions(n: nat) -> Seq<usize> {
    Seq::new(n, |i: int| i as usize)
}

/// Whether the node at a position names `parent` as its parent.
pub open spec fn names_parent(nodes: Seq<NodeModel>, parent: usize) -> spec_fn(usize) -> bool {
    |j: usize| j < nodes.len() && nodes[j as int].parent == Some(parent)
}

/// Whether the node at a position is an element with the local tag name `tag`.
pub open spec fn has_tag(nodes: Seq<NodeModel>, tag: Seq<char>) -> spec_fn(usize) -> bool {
    |j: usize| j < nodes.len() && nodes[j as int].element && nodes[j as int].name == tag
}

/// The children of the node at `parent`, in document order. A position past
/// the end has none.
pub open spec fn children(nodes: Seq<NodeModel>, parent: usize) -> Seq<usize> {
    if parent < nodes.len() {
        positions(nodes.len()).filter(names_parent(nodes, parent))
    } else {
        Seq::empty()
    }
}

/// The children of the node at `parent` that are elements tagged `tag`, in
/// document order.
pub open spec fn tagged_children(nodes: Seq<NodeModel>, parent: usize, tag: Seq<char>) -> Seq<
    usize,
> {
    children(nodes, parent).filter(has_tag(nodes, tag))
}

/// The children tagged `tag` of one node, as a function of the node.
pub open spec fn tagged_children_at(nodes: Seq<NodeModel>, tag: Seq<char>) -> spec_fn(usize) -> Seq<
    usize,
> {
    |p: usize| tagged_children(nodes, p, tag)
}

/// For each node of `from` in turn, its children tagged `tag`.
pub open spec fn tagged_children_of_each(
    nodes: Seq<NodeModel>,
    from: Seq<usize>,
    tag: Seq<char>,
) -> Seq<usize> {
    from.map_values(tagged_children_at(nodes, tag)).flatten()
}

/// Whether the node at `j` is the node at `top` or stands below it: the chain
/// of parents that leads up from `j` passes `top`. In document order a parent
/// stands before its children, and only such a parent counts.
pub open spec fn lies_under(nodes: Seq<NodeModel>, top: usize, j: usize) -> bool
    decreases j,
{
    j < nodes.len() && (j == top || match nodes[j as int].parent {
        Some(p) => p < j && lies_under(nodes, top, p),
        None => false,
    })
}

/// [`lies_under`] as a function of the position.
pub open spec fn under(nodes: Seq<NodeModel>, top: usize) -> spec_fn(usize) -> bool {
    |j: usize| lies_under(nodes, top, j)
}

/// The node at `top` and all nodes below it, in document order.
pub open spec fn subtree(nodes: Seq<NodeModel>, top: usize) -> Seq<usize> {
    positions(nodes.len()).filter(under(nodes, top))
}

/// Whether the node at a position is an element.
pub open spec fn is_element(nodes: Seq<NodeModel>) -> spec_fn(usize) -> bool {
    |j: usize| j < nodes.len() && nodes[j as int].element
}

/// The root element: the first child of the document node that is an element.
pub open spec fn root_element(nodes: Seq<NodeModel>) -> Option<usize> {
    let elements = children(nodes, 0).filter(is_element(nodes));
    if elements.len() > 0 {
        Some(elements[0])
    } else {
        None
    }
}

/// The tag of the elements that stand for audio clips.
pub open spec fn audio_clip_tag() -> Seq<char> {
    "AudioClip"@
}

/// The tag of a clip's reference to its sample.
pub open spec fn sample_ref_tag() -> Seq<char> {
    "SampleRef"@
}

/// The tag of a sample reference's file reference.
pub open spec fn file_ref_tag() -> Seq<char> {
    "FileRef"@
}

/// The tag of a file reference's path.
pub open spec fn path_tag() -> Seq<char> {
    "Path"@
}

/// The tag of a clip's start time.
pub open spec fn current_start_tag() -> Seq<char> {
    "CurrentStart"@
}

/// The name of the attribute that holds a path or a start time.
pub open spec fn value_name() -> Seq<char> {
    "Value"@
}

/// The `AudioClip` elements that the walk meets, in the order in which it meets
/// them: it visits the root element and every node below it in document order,
/// and at each looks through the node's own children.
pub open spec fn clip_nodes(nodes: Seq<NodeModel>) -> Seq<usize> {
    match root_element(nodes) {
        Some(root) => tagged_children_of_each(nodes, subtree(nodes, root), audio_clip_tag()),
        None => Seq::empty(),
    }
}

/// The `Path` elements that a clip reaches through `SampleRef` and `FileRef`,
/// in the order in which the walk meets them.
pub open spec fn path_nodes(nodes: Seq<NodeModel>, clip: usize) -> Seq<usize> {
    tagged_children_of_each(
        nodes,
        tagged_children_of_each(
            nodes,
            tagged_children(nodes, clip, sample_ref_tag()),
            file_ref_tag(),
        ),
        path_tag(),
    )
}

/// The `CurrentStart` elements of a clip, in document order.
pub open spec fn start_nodes(nodes: Seq<NodeModel>, clip: usize) -> Seq<usize> {
    tagged_children(nodes, clip, current_start_tag())
}

/// The `Value` attribute of the node at `j`.
pub open spec fn value_at(nodes: Seq<NodeModel>, j: usize) -> Option<Seq<char>> {
    if j < nodes.len() {
        attribute_value(nodes[j as int], value_name())
    } else {
        None
    }
}

/// What reading the `Value` of each node of `list` in turn leaves behind: the
/// last value read, the empty text where the list is empty, and `None` where
/// one of the nodes has no such attribute.
pub open spec fn read_values(nodes: Seq<NodeModel>, list: Seq<usize>) -> Option<Seq<char>> {
    if forall|i: int| 0 <= i < list.len() ==> (#[trigger] value_at(nodes, list[i])).is_some() {
        if list.len() == 0 {
            Some(Seq::empty())
        } else {
            value_at(nodes, list.last())
        }
    } else {
        None
    }
}

/// The record of the clip at `clip`; `None` where a `Path` or `CurrentStart`
/// that the walk reads has no `Value`.
pub open spec fn raw_clip(nodes: Seq<NodeModel>, clip: usize) -> Option<RawClipModel> {
    match (
        read_values(nodes, path_nodes(nodes, clip)),
        read_values(nodes, start_nodes(nodes, clip)),
    ) {
        (Some(path), Some(start)) => Some(RawClipModel { start, path }),
        _ => None,
    }
}

/// [`raw_clip`] of a clip that has one, as a function of the clip.
pub open spec fn raw_clip_at(nodes: Seq<NodeModel>) -> spec_fn(usize) -> RawClipModel {
    |clip: usize| raw_clip(nodes, clip).unwrap()
}

/// The outcome of the scan: one record per `AudioClip` element in the order of
/// [`clip_nodes`], or the error where one of them has no record.
pub open spec fn scan_result(nodes: Seq<NodeModel>) -> Result<Seq<RawClipModel>, AlsError> {
    let clips = clip_nodes(nodes);
    if forall|i: int| 0 <= i < clips.len() ==> (#[trigger] raw_clip(nodes, clips[i])).is_some() {
        Ok(clips.map_values(raw_clip_at(nodes)))
    } else {
        Err(AlsError::MissingValue)
    }
}

/// A document with, for each node, the list of its children.
pub struct XmlTree {
    nodes: Vec<XmlNode>,
    kids: Vec<Vec<usize>>,
}

impl View for XmlTree {
    type V = Seq<NodeModel>;

    closed spec fn view(&self) -> Seq<NodeModel> {
        document_model(self.nodes@)
    }
}

impl XmlTree {
    /// Each node's list of children is what [`children`] says.
    #[verifier::type_invariant]
    spec fn wf(&self) -> bool {
        &&& self.kids@.len() == self.nodes@.len()
        &&& forall|p: int|
            0 <= p < self.kids@.len() ==> (#[trigger] self.kids@[p])@ == children(
                self@,
                p as usize,
            )
    }

    /// Lists every node's children in one pass over the document.
    pub fn new(nodes: Vec<XmlNode>) -> (tree: XmlTree)
        ensures
            tree@ == document_model(nodes@),
    {
        let n = nodes.len();
        let ghost model = document_model(nodes@);
        let mut kids: Vec<Vec<usize>> = Vec::new();
        let mut p: usize = 0;
        while p < n
            invariant
                p <= n,
                kids@.len() == p,
                forall|q: int| 0 <= q < p ==> (#[trigger] kids@[q])@ == Seq::<usize>::empty(),
            decreases n - p,
        {
            kids.push(Vec::new());
            p += 1;
        }
        let mut j: usize = 0;
        while j < n
            invariant
                j <= n,
                n == nodes@.len(),
                model == document_model(nodes@),
                kids@.len() == n,
                forall|q: int|
                    0 <= q < n ==> (#[trigger] kids@[q])@ == positions(j as nat).filter(
                        names_parent(model, q as usize),
                    ),
            decreases n - j,
        {
            proof {
                assert(positions((j + 1) as nat) =~= positions(j as nat).push(j));
                assert forall|q: int| 0 <= q < n implies #[trigger] positions(
                    (j + 1) as nat,
                ).filter(names_parent(model, q as usize)) == if names_parent(model, q as usize)(j) {
                    positions(j as nat).filter(names_parent(model, q as usize)).push(j)
                } else {
                    positions(j as nat).filter(names_parent(model, q as usize))
                } by {
                    positions(j as nat).lemma_filter_push(j, names_parent(model, q as usize));
                }
            }
            match nodes[j].parent {
                Some(parent) => {
                    if parent < n {
                        kids[parent].push(j);
                    }
                },
                None => {},
            }
            j += 1;
        }
        XmlTree { nodes, kids }
    }

    /// The number of nodes.
    pub fn len(&self) -> (n: usize)
        ensures
            n == self@.len(),
    {
        self.nodes.len()
    }

    /// Lists the children of `node` that are elements tagged `tag`, in
    /// document order.
    pub fn walk_target_childs(&self, node: usize, tag: &str) -> (found: Vec<usize>)
        ensures
            found@ == tagged_children(self@, node, tag@),
    {
        let tag = tag.to_owned();
        self.tagged_children_of(node, &tag)
    }

    fn tagged_children_of(&self, node: usize, tag: &String) -> (found: Vec<usize>)
        ensures
            found@ == tagged_children(self@, node, tag@),
    {
        proof {
            use_type_invariant(self);
        }
        let mut found: Vec<usize> = Vec::new();
        if node >= self.nodes.len() {
            proof {
                Seq::<usize>::empty().lemma_filter_len(has_tag(self@, tag@));
            }
            assert(found@ =~= tagged_children(self@, node, tag@));
            return found;
        }
        let kids = &self.kids[node];
        let mut i: usize = 0;
        while i < kids.len()
            invariant
                i <= kids@.len(),
                self.wf(),
                kids@ == children(self@, node),
                found@ == kids@.take(i as int).filter(has_tag(self@, tag@)),
            decreases kids@.len() - i,
        {
            let j = kids[i];
            proof {
                assert(kids@.take(i + 1) =~= kids@.take(i as int).push(j));
                kids@.take(i as int).lemma_filter_push(j, has_tag(self@, tag@));
            }
            if j < self.nodes.len() && self.nodes[j].element && self.nodes[j].name == *tag {
                found.push(j);
            }
            i += 1;
        }
        assert(kids@.take(i as int) =~= kids@);
        found
    }

    /// Lists, for each node of `from` in turn, its children tagged `tag`.
    fn tagged_children_of_all(&self, from: &Vec<usize>, tag: &String) -> (found: Vec<usize>)
        ensures
            found@ == tagged_children_of_each(self@, from@, tag@),
    {
        let mut found: Vec<usize> = Vec::new();
        let mut i: usize = 0;
        let ghost at = tagged_children_at(self@, tag@);
        assert(from@.take(0).map_values(at) =~= Seq::<Seq<usize>>::empty());
        while i < from.len()
            invariant
                i <= from@.len(),
                at == tagged_children_at(self@, tag@),
                found@ == from@.take(i as int).map_values(at).flatten(),
            decreases from@.len() - i,
        {
            let mut next = self.tagged_children_of(from[i], tag);
            proof {
                assert(from@.take(i + 1).map_values(at) =~= from@.take(i as int).map_values(
                    at,
                ).push(next@));
                from@.take(i as int).map_values(at).lemma_flatten_push(next@);
            }
            found.append(&mut next);
            i += 1;
        }
        assert(from@.take(i as int) =~= from@);
        found
    }

    /// Finds the root element.
    pub fn root_element(&self) -> (root: Option<usize>)
        ensures
            root == root_element(self@),
    {
        proof {
            use_type_invariant(self);
        }
        if self.nodes.len() == 0 {
            proof {
                Seq::<usize>::empty().lemma_filter_len(is_element(self@));
            }
            return None;
        }
        let kids = &self.kids[0];
        let ghost pred = is_element(self@);
        let mut i: usize = 0;
        while i < kids.len()
            invariant
                i <= kids@.len(),
                self.wf(),
                pred == is_element(self@),
                kids@ == children(self@, 0),
                kids@.take(i as int).filter(pred).len() == 0,
            decreases kids@.len() - i,
        {
            let j = kids[i];
            proof {
                assert(kids@.take(i + 1) =~= kids@.take(i as int).push(j));
                kids@.take(i as int).lemma_filter_push(j, pred);
            }
            if j < self.nodes.len() && self.nodes[j].element {
                proof {
                    assert(kids@ =~= kids@.take(i + 1) + kids@.skip(i + 1));
                    Seq::filter_distributes_over_add(kids@.take(i + 1), kids@.skip(i + 1), pred);
                }
                return Some(j);
            }
            i += 1;
        }
        assert(kids@.take(i as int) =~= kids@);
        None
    }

    /// Lists the node at `top` and all nodes below it, in document order.
    pub fn subtree(&self, top: usize) -> (found: Vec<usize>)
        ensures
            found@ == subtree(self@, top),
    {
        let n = self.nodes.len();
        let ghost pred = under(self@, top);
        let mut inside: Vec<bool> = Vec::new();
        let mut found: Vec<usize> = Vec::new();
        let mut j: usize = 0;
        while j < n
            invariant
                j <= n,
                n == self@.len(),
                pred == under(self@, top),
                inside@.len() == j,
                forall|k: int| 0 <= k < j ==> #[trigger] inside@[k] == lies_under(self@, top, k as usize),
                found@ == positions(j as nat).filter(pred),
            decreases n - j,
        {
            let below = j == top || match self.nodes[j].parent {
                Some(p) => p < j && inside[p],
                None => false,
            };
            proof {
                assert(self@[j as int].parent == self.nodes@[j as int].parent);
                assert(below == lies_under(self@, top, j));
                assert(positions((j + 1) as nat) =~= positions(j as nat).push(j));
                positions(j as nat).lemma_filter_push(j, pred);
            }
            inside.push(below);
            if below {
                found.push(j);
            }
            j += 1;
        }
        found
    }

    /// Lists the `AudioClip` elements in the order in which the walk meets them.
    pub fn clip_nodes(&self) -> (found: Vec<usize>)
        ensures
            found@ == clip_nodes(self@),
    {
        match self.root_element() {
            Some(root) => {
                let visited = self.subtree(root);
                let tag = "AudioClip".to_owned();
                self.tagged_children_of_all(&visited, &tag)
            },
            None => Vec::new(),
        }
    }

    /// Reads the `Value` of each node of `list` in turn and keeps the last.
    fn read_values(&self, list: &Vec<usize>, name: &String) -> (r: Option<String>)
        requires
            name@ == value_name(),
        ensures
            match read_values(self@, list@) {
                Some(value) => r matches Some(s) && s@ == value,
                None => r is None,
            },
    {
        let mut last: Option<&String> = None;
        let mut i: usize = 0;
        while i < list.len()
            invariant
                i <= list@.len(),
                name@ == value_name(),
                forall|k: int| 0 <= k < i ==> (#[trigger] value_at(self@, list@[k])).is_some(),
                i == 0 ==> last is None,
                i > 0 ==> (last matches Some(s) && Some(s@) == value_at(self@, list@[i - 1])),
            decreases list@.len() - i,
        {
            let j = list[i];
            if j >= self.nodes.len() {
                assert(value_at(self@, list@[i as int]) is None);
                return None;
            }
            match self.nodes[j].attribute_named(name) {
                Some(value) => {
                    last = Some(value);
                },
                None => {
                    assert(value_at(self@, list@[i as int]) is None);
                    return None;
                },
            }
            i += 1;
        }
        match last {
            Some(value) => Some(value.clone()),
            None => Some(String::new()),
        }
    }

    /// Reads the record of the clip at `clip`.
    pub fn read_clip(&self, clip: usize) -> (r: Option<RawClip>)
        ensures
            match raw_clip(self@, clip) {
                Some(record) => r matches Some(c) && c@ == record,
                None => r is None,
            },
    {
        let sample_ref = "SampleRef".to_owned();
        let file_ref = "FileRef".to_owned();
        let path_tag = "Path".to_owned();
        let current_start = "CurrentStart".to_owned();
        let value = "Value".to_owned();
        let sample_refs = self.tagged_children_of(clip, &sample_ref);
        let file_refs = self.tagged_children_of_all(&sample_refs, &file_ref);
        let paths = self.tagged_children_of_all(&file_refs, &path_tag);
        let path = match self.read_values(&paths, &value) {
            Some(path) => path,
            None => {
                return None;
            },
        };
        let starts = self.tagged_children_of(clip, &current_start);
        match self.read_values(&starts, &value) {
            Some(start) => Some(RawClip { start, path }),
            None => None,
        }
    }

    /// Collects the record of each `AudioClip` element in the order of the walk.
    pub fn scan(&self) -> (r: Result<Vec<RawClip>, AlsError>)
        ensures
            returns_scan(scan_result(self@), r),
    {
        let clips = self.clip_nodes();
        let mut found: Vec<RawClip> = Vec::new();
        let mut i: usize = 0;
        while i < clips.len()
            invariant
                i <= clips@.len(),
                clips@ == clip_nodes(self@),
                forall|k: int| 0 <= k < i ==> (#[trigger] raw_clip(self@, clips@[k])).is_some(),
                raw_clips_model(found@) == clips@.take(i as int).map_values(raw_clip_at(self@)),
            decreases clips@.len() - i,
        {
            match self.read_clip(clips[i]) {
                Some(record) => {
                    proof {
                        assert(clips@.take(i + 1).map_values(raw_clip_at(self@)) =~= clips@.take(
                            i as int,
                        ).map_values(raw_clip_at(self@)).push(record@));
                        assert(raw_clips_model(found@.push(record)) =~= raw_clips_model(
                            found@,
                        ).push(record@));
                    }
                    found.push(record);
                },
                None => {
                    assert(raw_clip(self@, clips@[i as int]) is None);
                    return Err(AlsError::MissingValue);
                },
            }
            i += 1;
        }
        assert(clips@.take(i as int) =~= clips@);
        Ok(found)
    }
}

/// Walks a document and collects one record per `AudioClip` element.
pub fn scan_nodes(nodes: Vec<XmlNode>) -> (r: Result<Vec<RawClip>, AlsError>)
    ensures
        returns_scan(scan_result(document_model(nodes@)), r),
{
    let tree = XmlTree::new(nodes);
    tree.scan()
}

/// The outcome of the scan of a text: that of its document, or the error where
/// the text is no document.
pub open spec fn scan_text_result(text: Seq<char>) -> Result<Seq<RawClipModel>, AlsError> {
    match xml_document(text) {
        Some(nodes) => scan_result(nodes),
        None => Err(AlsError::Xml),
    }
}

/// The outcome of the scan of a compressed project file: that of the text it
/// inflates to, or the error where it does not inflate.
pub open spec fn scan_file_result(data: Seq<u8>) -> Result<Seq<RawClipModel>, AlsError> {
    match inflate_result(data) {
        Ok(text) => scan_text_result(text),
        Err(e) => Err(e),
    }
}

/// Whether `r` is what a scan with the outcome `outcome` returns.
pub open spec fn returns_scan(
    outcome: Result<Seq<RawClipModel>, AlsError>,
    r: Result<Vec<RawClip>, AlsError>,
) -> bool {
    match outcome {
        Ok(records) => r matches Ok(found) && raw_clips_model(found@) == records,
        Err(e) => r matches Err(x) && x == e,
    }
}

/// Parses a text as an XML document and scans it.
pub fn scan_text(text: &str) -> (r: Result<Vec<RawClip>, AlsError>)
    ensures
        returns_scan(scan_text_result(text@), r),
{
    match parse_document(text) {
        Ok(nodes) => scan_nodes(nodes),
        Err(e) => Err(e),
    }
}

/// Inflates a compressed project file and scans the document in it.
pub fn scan_file(data: &[u8]) -> (r: Result<Vec<RawClip>, AlsError>)
    ensures
        returns_scan(scan_file_result(data@), r),
{
    match inflate(data) {
        Ok(text) => scan_text(text.as_str()),
        Err(e) => Err(e),
    }
}

/// Scanning the same bytes again gives the same records, or the same error.
pub proof fn lemma_scan_file_repeats(
    data: Seq<u8>,
    first: Result<Vec<RawClip>, AlsError>,
    second: Result<Vec<RawClip>, AlsError>,
)
    requires
        returns_scan(scan_file_result(data), first),
        returns_scan(scan_file_result(data), second),
    ensures
        first matches Ok(a) ==> second matches Ok(b) && raw_clips_model(a@) == raw_clips_model(b@),
        first matches Err(e) ==> second matches Err(x) && x == e,
{
}

} // verus!
