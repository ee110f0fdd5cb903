use crate::text::{
    blank, chars_of, contains, find_chars, first_lines, first_occurrence, is_blank, join_lines,
    lowercase_of, replace_each, replaced, same_text, take_lines, trim, trim_bounds, trimmed,
};
use crate::xml::{read_nodes, xml_nodes, XmlError, XmlNode, XmlNodeView};
use vstd::prelude::*;
use vstd::string::StrSliceExecFns;
use vstd::string::StringExecFns;

verus! {

/// The description of a condition whose summary is empty.
pub const NO_SUMMARY: &'static str = "No summary available";

/// A section of a condition whose summary is empty.
pub const NOT_AVAILABLE: &'static str = "N/A";

/// A section for which the summary holds none of the section's keywords.
pub const DETAILS_INTEGRATED: &'static str = "Details integrated in the description above.";

/// How many characters before a keyword its section begins.
pub const LEAD_IN: usize = 100;

/// How many lines the description holds at most.
pub const DESCRIPTION_LINES: usize = 20;

/// How many lines a section holds at most, where no blank line ends it.
pub const SECTION_LINES: usize = 15;

/// What is read of `original` for a section whose keyword stands at `pos` in the lowercase
/// copy: all from `LEAD_IN` characters before `pos`, or from the start where `pos` is not
/// beyond `LEAD_IN`; nothing where that start lies behind the end of `original`.
pub open spec fn section_window(original: Seq<char>, pos: int) -> Seq<char> {
    let start = if pos > LEAD_IN { pos - LEAD_IN } else { 0 };
    if start <= original.len() {
        original.skip(start)
    } else {
        Seq::empty()
    }
}

/// The section that `window` opens with: the text before its first blank line, trimmed; or,
/// where it has no blank line, its first `SECTION_LINES` lines.
pub open spec fn section_text(window: Seq<char>) -> Seq<char> {
    match first_occurrence(window, seq!['\n', '\n']) {
        Some(end) => trimmed(window.take(end)),
        None => first_lines(window, SECTION_LINES as nat),
    }
}

/// The section of `original` for the first of `keywords` that stands in `lower`, or
/// `DETAILS_INTEGRATED` where none of them does.
pub open spec fn section_of(lower: Seq<char>, original: Seq<char>, keywords: Seq<Seq<char>>) -> Seq<char>
    decreases keywords.len(),
{
    if keywords.len() == 0 {
        DETAILS_INTEGRATED@
    } else {
        match first_occurrence(lower, keywords.first()) {
            Some(pos) => section_text(section_window(original, pos)),
            None => section_of(lower, original, keywords.drop_first()),
        }
    }
}

/// The keywords that open the section on causes, in the order in which they are tried.
pub open spec fn etiology_keywords() -> Seq<Seq<char>> {
    seq!["cause"@, "caused by"@, "etiology"@, "risk factor"@]
}

/// The keywords that open the section on symptoms and signs, in the order in which they are
/// tried.
pub open spec fn manifestation_keywords() -> Seq<Seq<char>> {
    seq!["symptom"@, "sign"@, "manifestation"@, "present with"@]
}

/// The keywords that open the section on treatments, in the order in which they are tried.
pub open spec fn treatment_keywords() -> Seq<Seq<char>> {
    seq!["treat"@, "therapy"@, "treatment"@, "medication"@, "surgery"@]
}

/// The description and the sections on causes, on symptoms and on treatments that are read
/// from `summary`, whose lowercase copy is `lower`. A blank summary gives the placeholders
/// and nothing else.
pub open spec fn sections_of(summary: Seq<char>, lower: Seq<char>) -> (
    Seq<char>,
    Seq<char>,
    Seq<char>,
    Seq<char>,
) {
    if is_blank(summary) {
        (NO_SUMMARY@, NOT_AVAILABLE@, NOT_AVAILABLE@, NOT_AVAILABLE@)
    } else {
        (
            first_lines(summary, DESCRIPTION_LINES as nat),
            section_of(lower, summary, etiology_keywords()),
            section_of(lower, summary, manifestation_keywords()),
            section_of(lower, summary, treatment_keywords()),
        )
    }
}

/// A blank summary gives the placeholders, whatever its lowercase copy is; an empty one is
/// blank.
pub proof fn lemma_blank_summary_gives_placeholders(summary: Seq<char>, lower: Seq<char>)
    requires
        is_blank(summary),
    ensures
        sections_of(summary, lower) == (NO_SUMMARY@, NOT_AVAILABLE@, NOT_AVAILABLE@, NOT_AVAILABLE@),
        is_blank(Seq::<char>::empty()),
{
}

/// Reads from `original` the section whose keyword stands at `pos` in the lowercase copy.
pub fn section_at(original: &str, pos: usize) -> (r: String)
    ensures
        r@ == section_text(section_window(original@, pos as int)),
{
    let len = original.unicode_len();
    let wanted: usize = if pos > LEAD_IN { pos - LEAD_IN } else { 0 };
    let start: usize = if wanted <= len { wanted } else { len };
    let window = original.substring_char(start, len);
    assert(window@ =~= section_window(original@, pos as int));
    let chars = chars_of(window);
    let mut blank_line: Vec<char> = Vec::new();
    blank_line.push('\n');
    blank_line.push('\n');
    assert(blank_line@ =~= seq!['\n', '\n']);
    match find_chars(&chars, &blank_line) {
        Some(end) => {
            let (a, b) = trim_bounds(&chars, 0, end);
            assert(chars@.subrange(0, end as int) =~= window@.take(end as int));
            String::from_str(window.substring_char(a, b))
        },
        None => take_lines(window, SECTION_LINES),
    }
}

/// Reads from `original` the section for the first of `keywords` that stands in `lower`, the
/// lowercase copy of `original`; gives `DETAILS_INTEGRATED` where none of them stands there.
pub fn extract_section(lower: &str, original: &str, keywords: &[&str]) -> (r: String)
    ensures
        r@ == section_of(lower@, original@, keywords.deep_view()),
{
    let haystack = chars_of(lower);
    let ghost all = keywords.deep_view();
    let mut k: usize = 0;
    proof {
        assert(all.skip(0) =~= all);
    }
    while k < keywords.len()
        invariant
            k <= keywords.len(),
            haystack@ == lower@,
            all == keywords.deep_view(),
            section_of(lower@, original@, all) == section_of(lower@, original@, all.skip(k as int)),
        decreases keywords.len() - k,
    {
        let needle = chars_of(keywords[k]);
        proof {
            let rest = all.skip(k as int);
            assert(rest.first() == keywords@[k as int]@);
            assert(rest.drop_first() =~= all.skip(k + 1));
        }
        match find_chars(&haystack, &needle) {
            Some(pos) => {
                return section_at(original, pos);
            },
            None => {},
        }
        k += 1;
    }
    String::from_str(DETAILS_INTEGRATED)
}

/// Splits `summary` into its description and its sections on causes, on symptoms and on
/// treatments. The keywords are looked for in the lowercase form of `summary`.
pub fn extract_sections(summary: &str) -> (r: (String, String, String, String))
    ensures
        (r.0@, r.1@, r.2@, r.3@) == sections_of(summary@, lowercase_of(summary@)),
{
    if blank(summary) {
        return (
            String::from_str(NO_SUMMARY),
            String::from_str(NOT_AVAILABLE),
            String::from_str(NOT_AVAILABLE),
            String::from_str(NOT_AVAILABLE),
        );
    }
    let lower = summary.to_lowercase();
    let first_part = take_lines(summary, DESCRIPTION_LINES);
    let causes: Vec<&str> = vec!["cause", "caused by", "etiology", "risk factor"];
    let symptoms: Vec<&str> = vec!["symptom", "sign", "manifestation", "present with"];
    let cures: Vec<&str> = vec!["treat", "therapy", "treatment", "medication", "surgery"];
    let causes = causes.as_slice();
    let symptoms = symptoms.as_slice();
    let cures = cures.as_slice();
    proof {
        assert(causes.deep_view() =~= etiology_keywords());
        assert(symptoms.deep_view() =~= manifestation_keywords());
        assert(cures.deep_view() =~= treatment_keywords());
    }
    let etiology = extract_section(lower.as_str(), summary, causes);
    let manifestations = extract_section(lower.as_str(), summary, symptoms);
    let treatments = extract_section(lower.as_str(), summary, cures);
    (first_part, etiology, manifestations, treatments)
}

/// A health topic as the source lists it.
#[derive(Debug, Clone)]
pub struct TopicInfo {
    pub title: String,
    pub medline_url: String,
    pub full_summary: String,
    pub groups: Vec<String>,
}

/// What a `TopicInfo` says.
pub struct TopicInfoView {
    pub title: Seq<char>,
    pub medline_url: Seq<char>,
    pub full_summary: Seq<char>,
    pub groups: Seq<Seq<char>>,
}

impl View for TopicInfo {
    type V = TopicInfoView;

    open spec fn view(&self) -> TopicInfoView {
        TopicInfoView {
            title: self.title@,
            medline_url: self.medline_url@,
            full_summary: self.full_summary@,
            groups: self.groups.deep_view(),
        }
    }
}

impl DeepView for TopicInfo {
    type V = TopicInfoView;

    open spec fn deep_view(&self) -> TopicInfoView {
        self@
    }
}

/// A condition with the sections that were read from its summary.
#[derive(Debug, Clone)]
pub struct ConditionData {
    pub name: String,
    pub medline_url: String,
    pub groups: Vec<String>,
    pub description: String,
    pub etiology: String,
    pub manifestations: String,
    pub treatments: String,
}

/// What a `ConditionData` says.
pub struct ConditionDataView {
    pub name: Seq<char>,
    pub medline_url: Seq<char>,
    pub groups: Seq<Seq<char>>,
    pub description: Seq<char>,
    pub etiology: Seq<char>,
    pub manifestations: Seq<char>,
    pub treatments: Seq<char>,
}

impl View for ConditionData {
    type V = ConditionDataView;

    open spec fn view(&self) -> ConditionDataView {
        ConditionDataView {
            name: self.name@,
            medline_url: self.medline_url@,
            groups: self.groups.deep_view(),
            description: self.description@,
            etiology: self.etiology@,
            manifestations: self.manifestations@,
            treatments: self.treatments@,
        }
    }
}

impl DeepView for ConditionData {
    type V = ConditionDataView;

    open spec fn deep_view(&self) -> ConditionDataView {
        self@
    }
}

/// The value of the first of `attributes` that is named `name`.
pub open spec fn attribute_value(attributes: Seq<(Seq<char>, Seq<char>)>, name: Seq<char>) -> Option<
    Seq<char>,
>
    decreases attributes.len(),
{
    if attributes.len() == 0 {
        None
    } else if attributes.first().0 == name {
        Some(attributes.first().1)
    } else {
        attribute_value(attributes.drop_first(), name)
    }
}

/// Whether the node at `k` hangs on the node at `i` or on a node behind it.
pub open spec fn hangs_below(nodes: Seq<XmlNodeView>, i: int, k: int) -> bool {
    match nodes[k].parent {
        Some(p) => p >= nodes[i].id,
        None => false,
    }
}

/// Where the run of nodes ends that begins at `from` and hangs below the node at `i`. In a
/// document in document order the nodes below the node at `i` are the run from `i + 1`.
pub open spec fn subtree_end(nodes: Seq<XmlNodeView>, i: int, from: int) -> int
    decreases nodes.len() - from,
{
    if 0 <= from < nodes.len() && hangs_below(nodes, i, from) {
        subtree_end(nodes, i, from + 1)
    } else {
        from
    }
}

/// Whether the node at `k` is an element named `name` that hangs on the node at `i`.
pub open spec fn is_child_named(nodes: Seq<XmlNodeView>, i: int, k: int, name: Seq<char>) -> bool {
    nodes[k].parent == Some(nodes[i].id) && nodes[k].name == name
}

/// The first place from `from` up to `end` of a child of the node at `i` that is named
/// `name`.
pub open spec fn first_child_named(
    nodes: Seq<XmlNodeView>,
    i: int,
    name: Seq<char>,
    from: int,
    end: int,
) -> Option<int>
    decreases end - from,
{
    if from >= end {
        None
    } else if is_child_named(nodes, i, from, name) {
        Some(from)
    } else {
        first_child_named(nodes, i, name, from + 1, end)
    }
}

/// The texts of the nodes from `lo` up to `hi` that have one, in their order.
pub open spec fn texts_in(nodes: Seq<XmlNodeView>, lo: int, hi: int) -> Seq<Seq<char>>
    decreases hi - lo,
{
    if hi <= lo {
        Seq::empty()
    } else {
        let before = texts_in(nodes, lo, hi - 1);
        match nodes[hi - 1].text {
            Some(t) => before.push(t),
            None => before,
        }
    }
}

/// The summary of the topic at `i`: the texts in and below its first `full-summary` child,
/// one to a line, with each run of three line feeds cut to two, trimmed. Empty where it has
/// no such child.
pub open spec fn summary_of(nodes: Seq<XmlNodeView>, i: int) -> Seq<char> {
    match first_child_named(nodes, i, "full-summary"@, i + 1, subtree_end(nodes, i, i + 1)) {
        Some(c) => trimmed(
            replaced(
                join_lines(texts_in(nodes, c, subtree_end(nodes, c, c + 1))),
                "\n\n\n"@,
                "\n\n"@,
            ),
        ),
        None => Seq::empty(),
    }
}

/// The trimmed texts of the `group` children of the node at `i` among the nodes from `lo` up
/// to `hi`, in their order.
pub open spec fn groups_in(nodes: Seq<XmlNodeView>, i: int, lo: int, hi: int) -> Seq<Seq<char>>
    decreases hi - lo,
{
    if hi <= lo {
        Seq::empty()
    } else {
        let before = groups_in(nodes, i, lo, hi - 1);
        match nodes[hi - 1].text {
            Some(t) => if is_child_named(nodes, i, hi - 1, "group"@) {
                before.push(trimmed(t))
            } else {
                before
            },
            None => before,
        }
    }
}

/// Whether a topic in this language is read: it names no language, or English.
pub open spec fn is_english(language: Option<Seq<char>>) -> bool {
    match language {
        Some(l) => l == "English"@ || l == "en"@,
        None => true,
    }
}

/// The topic that the node at `i` describes, if it is a `health-topic` element with a title
/// and in English.
pub open spec fn topic_at(nodes: Seq<XmlNodeView>, i: int) -> Option<TopicInfoView> {
    let attributes = nodes[i].attributes;
    match attribute_value(attributes, "title"@) {
        Some(title) => if nodes[i].name == "health-topic"@ && is_english(
            attribute_value(attributes, "language"@),
        ) {
            Some(
                TopicInfoView {
                    title: title,
                    medline_url: match attribute_value(attributes, "url"@) {
                        Some(url) => url,
                        None => Seq::empty(),
                    },
                    full_summary: summary_of(nodes, i),
                    groups: groups_in(nodes, i, i + 1, subtree_end(nodes, i, i + 1)),
                },
            )
        } else {
            None
        },
        None => None,
    }
}

/// The topics that the first `hi` of `nodes` describe, in their order.
pub open spec fn topics_upto(nodes: Seq<XmlNodeView>, hi: int) -> Seq<TopicInfoView>
    decreases hi,
{
    if hi <= 0 {
        Seq::empty()
    } else {
        let before = topics_upto(nodes, hi - 1);
        match topic_at(nodes, hi - 1) {
            Some(topic) => before.push(topic),
            None => before,
        }
    }
}

/// The topics that `nodes` describe.
pub open spec fn topics_in(nodes: Seq<XmlNodeView>) -> Seq<TopicInfoView> {
    topics_upto(nodes, nodes.len() as int)
}

/// The value of the first attribute of `node` that is named `name`.
fn attribute<'a>(node: &'a XmlNode, name: &str) -> (r: Option<&'a String>)
    ensures
        match r {
            Some(value) => attribute_value(node@.attributes, name@) == Some(value@),
            None => attribute_value(node@.attributes, name@) is None,
        },
{
    let ghost all = node@.attributes;
    let mut k: usize = 0;
    proof {
        assert(all.skip(0) =~= all);
    }
    while k < node.attributes.len()
        invariant
            k <= node.attributes.len(),
            all == node@.attributes,
            attribute_value(all, name@) == attribute_value(all.skip(k as int), name@),
        decreases node.attributes.len() - k,
    {
        proof {
            let rest = all.skip(k as int);
            assert(rest.first() == (node.attributes@[k as int].0@, node.attributes@[k as int].1@));
            assert(rest.drop_first() =~= all.skip(k + 1));
        }
        if same_text(node.attributes[k].0.as_str(), name) {
            return Some(&node.attributes[k].1);
        }
        k += 1;
    }
    None
}

/// Finds where the nodes below the node at `i` end.
fn find_subtree_end(nodes: &Vec<XmlNode>, i: usize) -> (end: usize)
    requires
        i < nodes.len(),
    ensures
        i < end <= nodes.len(),
        end == subtree_end(nodes.deep_view(), i as int, i + 1),
{
    let ghost all = nodes.deep_view();
    let mut end: usize = i + 1;
    loop
        invariant
            i < end <= nodes.len(),
            all == nodes.deep_view(),
            subtree_end(all, i as int, i + 1) == subtree_end(all, i as int, end as int),
        decreases nodes.len() - end,
    {
        if end >= nodes.len() {
            return end;
        }
        assert(all[end as int] == nodes@[end as int]@);
        assert(all[i as int] == nodes@[i as int]@);
        let below = match nodes[end].parent {
            Some(p) => p >= nodes[i].id,
            None => false,
        };
        if !below {
            return end;
        }
        end += 1;
    }
}

/// Reads the summary of the topic at `i`, whose nodes end at `end`.
fn read_summary(nodes: &Vec<XmlNode>, i: usize, end: usize) -> (r: String)
    requires
        i < end <= nodes.len(),
        end == subtree_end(nodes.deep_view(), i as int, i + 1),
    ensures
        r@ == summary_of(nodes.deep_view(), i as int),
{
    let ghost all = nodes.deep_view();
    let mut c: usize = i + 1;
    while c < end
        invariant
            i < c <= end <= nodes.len(),
            all == nodes.deep_view(),
            end == subtree_end(all, i as int, i + 1),
            first_child_named(all, i as int, "full-summary"@, i + 1, end as int) == first_child_named(
                all,
                i as int,
                "full-summary"@,
                c as int,
                end as int,
            ),
        decreases end - c,
    {
        assert(all[c as int] == nodes@[c as int]@);
        assert(all[i as int] == nodes@[i as int]@);
        let hangs_here = match nodes[c].parent {
            Some(p) => p == nodes[i].id,
            None => false,
        };
        if hangs_here && same_text(nodes[c].name.as_str(), "full-summary") {
            let stop = find_subtree_end(nodes, c);
            let mut joined = String::new();
            let ghost mut texts: Seq<Seq<char>> = Seq::empty();
            let mut any: bool = false;
            let mut k: usize = c;
            while k < stop
                invariant
                    c <= k <= stop <= nodes.len(),
                    all == nodes.deep_view(),
                    texts == texts_in(all, c as int, k as int),
                    joined@ == join_lines(texts),
                    any == (texts.len() > 0),
                decreases stop - k,
            {
                assert(all[k as int] == nodes@[k as int]@);
                match &nodes[k].text {
                    Some(t) => {
                        if any {
                            proof {
                                reveal_strlit("\n");
                            }
                            joined.append("\n");
                            assert("\n"@ =~= seq!['\n']);
                        }
                        joined.append(t.as_str());
                        any = true;
                        proof {
                            assert(texts.push(t@).drop_last() =~= texts);
                            texts = texts.push(t@);
                        }
                    },
                    None => {},
                }
                k += 1;
            }
            let cut = replace_each(joined.as_str(), "\n\n\n", "\n\n");
            return String::from_str(trim(cut.as_str()));
        }
        c += 1;
    }
    String::new()
}

/// Reads the groups of the topic at `i`, whose nodes end at `end`.
fn read_groups(nodes: &Vec<XmlNode>, i: usize, end: usize) -> (r: Vec<String>)
    requires
        i < end <= nodes.len(),
    ensures
        r.deep_view() == groups_in(nodes.deep_view(), i as int, i + 1, end as int),
{
    let ghost all = nodes.deep_view();
    let mut groups: Vec<String> = Vec::new();
    let mut k: usize = i + 1;
    proof {
        assert(groups.deep_view() =~= groups_in(all, i as int, i + 1, i + 1));
    }
    while k < end
        invariant
            i < k <= end <= nodes.len(),
            all == nodes.deep_view(),
            groups.deep_view() == groups_in(all, i as int, i + 1, k as int),
        decreases end - k,
    {
        assert(all[k as int] == nodes@[k as int]@);
        assert(all[i as int] == nodes@[i as int]@);
        let ghost before = groups.deep_view();
        let hangs_here = match nodes[k].parent {
            Some(p) => p == nodes[i].id,
            None => false,
        };
        if hangs_here && same_text(nodes[k].name.as_str(), "group") {
            match &nodes[k].text {
                Some(t) => {
                    groups.push(String::from_str(trim(t.as_str())));
                    assert(groups.deep_view() =~= before.push(trimmed(t@)));
                },
                None => {},
            }
        }
        k += 1;
    }
    groups
}

/// Reads the topic that the node at `i` describes, if it describes one.
fn read_topic(nodes: &Vec<XmlNode>, i: usize) -> (r: Option<TopicInfo>)
    requires
        i < nodes.len(),
    ensures
        match r {
            Some(topic) => topic_at(nodes.deep_view(), i as int) == Some(topic@),
            None => topic_at(nodes.deep_view(), i as int) is None,
        },
{
    let node = &nodes[i];
    assert(nodes.deep_view()[i as int] == node@);
    if !same_text(node.name.as_str(), "health-topic") {
        return None;
    }
    let title = match attribute(node, "title") {
        Some(title) => title,
        None => {
            return None;
        },
    };
    match attribute(node, "language") {
        Some(language) => {
            if !same_text(language.as_str(), "English") && !same_text(language.as_str(), "en") {
                return None;
            }
        },
        None => {},
    }
    let medline_url = match attribute(node, "url") {
        Some(url) => url.clone(),
        None => String::new(),
    };
    let end = find_subtree_end(nodes, i);
    Some(
        TopicInfo {
            title: title.clone(),
            medline_url,
            full_summary: read_summary(nodes, i, end),
            groups: read_groups(nodes, i, end),
        },
    )
}

/// Reads the topics that `nodes` describe: one for each `health-topic` element that has a
/// title and is in English.
pub fn read_topics(nodes: &Vec<XmlNode>) -> (r: Vec<TopicInfo>)
    ensures
        r.deep_view() == topics_in(nodes.deep_view()),
{
    let ghost all = nodes.deep_view();
    let mut topics: Vec<TopicInfo> = Vec::new();
    let mut i: usize = 0;
    proof {
        assert(topics.deep_view() =~= topics_upto(all, 0));
    }
    while i < nodes.len()
        invariant
            i <= nodes.len(),
            all == nodes.deep_view(),
            topics.deep_view() == topics_upto(all, i as int),
        decreases nodes.len() - i,
    {
        let ghost before = topics.deep_view();
        match read_topic(nodes, i) {
            Some(topic) => {
                topics.push(topic);
                assert(topics.deep_view() =~= before.push(topic@));
            },
            None => {},
        }
        i += 1;
    }
    topics
}

/// Reads the topics from the document that `xml` is. Fails where `xml` is no well-formed
/// document.
pub fn parse_topics(xml: &str) -> (r: Result<Vec<TopicInfo>, XmlError>)
    ensures
        match xml_nodes(xml@) {
            Some(nodes) => r is Ok && r->Ok_0.deep_view() == topics_in(nodes),
            None => r == Err::<Vec<TopicInfo>, XmlError>(XmlError::Malformed),
        },
{
    match read_nodes(xml) {
        Ok(nodes) => Ok(read_topics(&nodes)),
        Err(e) => Err(e),
    }
}

/// The words of which one in a lowercase title marks a topic as a condition.
pub open spec fn title_words() -> Seq<Seq<char>> {
    seq![
        "disease"@,
        "disorder"@,
        "syndrome"@,
        "cancer"@,
        "infection"@,
        "tumor"@,
        "arthritis"@,
        "diabetes"@,
    ]
}

/// The words of which one in a lowercase group name marks a topic as a condition.
pub open spec fn group_words() -> Seq<Seq<char>> {
    seq!["disorder"@, "cancer"@, "infection"@, "injury"@, "mental health"@]
}

/// Whether one of `words` stands in `text`.
pub open spec fn holds_any(text: Seq<char>, words: Seq<Seq<char>>) -> bool {
    exists|k: int| 0 <= k < words.len() && contains(text, #[trigger] words[k])
}

/// Whether a topic with this lowercase title and these lowercase group names is a disease,
/// a disorder or another condition.
pub open spec fn names_condition(lower_title: Seq<char>, lower_groups: Seq<Seq<char>>) -> bool {
    holds_any(lower_title, title_words()) || exists|g: int|
        0 <= g < lower_groups.len() && holds_any(#[trigger] lower_groups[g], group_words())
}

/// The lowercase forms of `texts`, one for each.
pub open spec fn lowercase_each(texts: Seq<Seq<char>>) -> Seq<Seq<char>> {
    Seq::new(texts.len(), |i: int| lowercase_of(texts[i]))
}

/// Whether `topic` is a disease, a disorder or another condition.
pub open spec fn is_condition(topic: TopicInfoView) -> bool {
    names_condition(lowercase_of(topic.title), lowercase_each(topic.groups))
}

/// The condition that is read from `topic`.
pub open spec fn condition_of_topic(topic: TopicInfoView) -> ConditionDataView {
    let parts = sections_of(topic.full_summary, lowercase_of(topic.full_summary));
    ConditionDataView {
        name: topic.title,
        medline_url: topic.medline_url,
        groups: topic.groups,
        description: parts.0,
        etiology: parts.1,
        manifestations: parts.2,
        treatments: parts.3,
    }
}

/// The conditions among `topics`, in their order.
pub open spec fn conditions_among(topics: Seq<TopicInfoView>) -> Seq<ConditionDataView>
    decreases topics.len(),
{
    if topics.len() == 0 {
        Seq::empty()
    } else {
        let before = conditions_among(topics.drop_last());
        if is_condition(topics.last()) {
            before.push(condition_of_topic(topics.last()))
        } else {
            before
        }
    }
}

/// Tells whether one of `words` stands in `text`.
fn text_holds_any(text: &Vec<char>, words: &[&str]) -> (b: bool)
    ensures
        b == holds_any(text@, words.deep_view()),
{
    let mut k: usize = 0;
    while k < words.len()
        invariant
            k <= words.len(),
            forall|j: int| 0 <= j < k ==> !contains(text@, #[trigger] words.deep_view()[j]),
        decreases words.len() - k,
    {
        let word = chars_of(words[k]);
        assert(words.deep_view()[k as int] == word@);
        if find_chars(text, &word).is_some() {
            return true;
        }
        k += 1;
    }
    false
}

/// Tells whether a topic with this lowercase title and these lowercase group names is a
/// disease, a disorder or another condition.
pub fn topic_names_condition(lower_title: &str, lower_groups: &Vec<String>) -> (b: bool)
    ensures
        b == names_condition(lower_title@, lower_groups.deep_view()),
{
    let in_title: Vec<&str> = vec![
        "disease",
        "disorder",
        "syndrome",
        "cancer",
        "infection",
        "tumor",
        "arthritis",
        "diabetes",
    ];
    let in_group: Vec<&str> = vec!["disorder", "cancer", "infection", "injury", "mental health"];
    let in_title = in_title.as_slice();
    let in_group = in_group.as_slice();
    proof {
        assert(in_title.deep_view() =~= title_words());
        assert(in_group.deep_view() =~= group_words());
    }
    let title = chars_of(lower_title);
    if text_holds_any(&title, in_title) {
        return true;
    }
    let mut g: usize = 0;
    while g < lower_groups.len()
        invariant
            g <= lower_groups.len(),
            in_group.deep_view() == group_words(),
            forall|j: int|
                0 <= j < g ==> !holds_any(#[trigger] lower_groups.deep_view()[j], group_words()),
        decreases lower_groups.len() - g,
    {
        let group = chars_of(lower_groups[g].as_str());
        assert(lower_groups.deep_view()[g as int] == group@);
        if text_holds_any(&group, in_group) {
            return true;
        }
        g += 1;
    }
    false
}

/// A copy of `texts`.
fn clone_texts(texts: &Vec<String>) -> (r: Vec<String>)
    ensures
        r.deep_view() == texts.deep_view(),
{
    let mut r: Vec<String> = Vec::new();
    let mut i: usize = 0;
    while i < texts.len()
        invariant
            i <= texts.len(),
            r.len() == i,
            forall|j: int| 0 <= j < i ==> (#[trigger] r@[j])@ == texts@[j]@,
        decreases texts.len() - i,
    {
        r.push(texts[i].clone());
        i += 1;
    }
    assert(r.deep_view() =~= texts.deep_view());
    r
}

/// Tells whether `topic` is a disease, a disorder or another condition, by its title and its
/// group names in lowercase.
pub fn is_condition_topic(topic: &TopicInfo) -> (b: bool)
    ensures
        b == is_condition(topic@),
{
    let lower_title = topic.title.as_str().to_lowercase();
    let mut lower_groups: Vec<String> = Vec::new();
    let mut g: usize = 0;
    while g < topic.groups.len()
        invariant
            g <= topic.groups.len(),
            lower_groups.len() == g,
            forall|j: int| 0 <= j < g ==> (#[trigger] lower_groups@[j])@ == lowercase_of(topic.groups@[j]@),
        decreases topic.groups.len() - g,
    {
        lower_groups.push(topic.groups[g].as_str().to_lowercase());
        g += 1;
    }
    assert(lower_groups.deep_view() =~= lowercase_each(topic@.groups));
    topic_names_condition(lower_title.as_str(), &lower_groups)
}

/// Reads the condition from `topic`: its name, address and groups as they are, and the
/// sections of its summary.
pub fn condition_from_topic(topic: &TopicInfo) -> (r: ConditionData)
    ensures
        r@ == condition_of_topic(topic@),
{
    let (description, etiology, manifestations, treatments) = extract_sections(
        topic.full_summary.as_str(),
    );
    ConditionData {
        name: topic.title.clone(),
        medline_url: topic.medline_url.clone(),
        groups: clone_texts(&topic.groups),
        description,
        etiology,
        manifestations,
        treatments,
    }
}

/// Reads the conditions from the topics that are diseases, disorders or other conditions,
/// in the order of the topics.
pub fn select_conditions(topics: &Vec<TopicInfo>) -> (r: Vec<ConditionData>)
    ensures
        r.deep_view() == conditions_among(topics.deep_view()),
{
    let ghost all = topics.deep_view();
    let mut r: Vec<ConditionData> = Vec::new();
    let mut i: usize = 0;
    proof {
        assert(r.deep_view() =~= conditions_among(all.take(0)));
    }
    while i < topics.len()
        invariant
            i <= topics.len(),
            all == topics.deep_view(),
            r.deep_view() == conditions_among(all.take(i as int)),
        decreases topics.len() - i,
    {
        let ghost before = r.deep_view();
        proof {
            assert(all.take(i + 1).drop_last() =~= all.take(i as int));
            assert(all.take(i + 1).last() == topics@[i as int]@);
        }
        if is_condition_topic(&topics[i]) {
            r.push(condition_from_topic(&topics[i]));
            assert(r.deep_view() =~= before.push(condition_of_topic(topics@[i as int]@)));
        }
        i += 1;
    }
    proof {
        assert(all.take(topics.len() as int) =~= all);
    }
    r
}

/// After how many days the stored topics are fetched anew.
pub const MAX_AGE_DAYS: i64 = 10;

/// Whether the topics are to be fetched: never where updates are switched off; else where the
/// source file or the stored conditions are missing, where the age of the stored conditions
/// is unknown, and where it has reached `MAX_AGE_DAYS`.
pub open spec fn fetch_is_due(
    no_update: bool,
    source_present: bool,
    conditions_present: bool,
    age_days: Option<i64>,
) -> bool {
    !no_update && (!source_present || !conditions_present || match age_days {
        Some(days) => days >= MAX_AGE_DAYS,
        None => true,
    })
}

/// Decides whether the topics are to be fetched.
pub fn needs_fetch(
    no_update: bool,
    source_present: bool,
    conditions_present: bool,
    age_days: Option<i64>,
) -> (b: bool)
    ensures
        b == fetch_is_due(no_update, source_present, conditions_present, age_days),
{
    if no_update {
        return false;
    }
    if !source_present {
        return true;
    }
    if !conditions_present {
        return true;
    }
    match age_days {
        Some(days) => days >= MAX_AGE_DAYS,
        None => true,
    }
}

} // verus!
