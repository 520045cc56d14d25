//! Which PipeWire playback channels still have to be linked to Suono's
//! capture inputs, read from the listing that `pw-link -l` prints.
//!
//! In that listing a node's ports come as a header line that starts in the
//! first column, followed by indented lines; a line `  |<- source` says that
//! `source` is linked into the port above it.
use vstd::prelude::*;

use crate::text::{
    lemma_lines_append, lemma_lines_single, terminated_line, chars_of, contains, find_in_range, lines, lines_from, next_line, range_starts_with,
    starts_with,
};

verus! {

/// The name of a PipeWire port, such as `spotify:output_FL`.
pub type Channel = String;

/// One of Suono's two capture inputs.
#[derive(Clone, Copy, Debug, PartialEq, Eq, Structural)]
pub enum CaptureInput {
    FrontLeft,
    FrontRight,
}

impl CaptureInput {
    /// The PipeWire port of this input.
    pub fn port(&self) -> (p: &'static str)
        ensures
            p@ == (match self {
                CaptureInput::FrontLeft => "alsa_capture.suono:input_FL"@,
                CaptureInput::FrontRight => "alsa_capture.suono:input_FR"@,
            }),
    {
        match self {
            CaptureInput::FrontLeft => "alsa_capture.suono:input_FL",
            CaptureInput::FrontRight => "alsa_capture.suono:input_FR",
        }
    }
}

/// A link to make: `channel` into `input`.
#[derive(Clone, Debug)]
pub struct Link {
    pub channel: Channel,
    pub input: CaptureInput,
}

impl View for Link {
    type V = (Seq<char>, CaptureInput);

    open spec fn view(&self) -> (Seq<char>, CaptureInput) {
        (self.channel@, self.input)
    }
}

pub open spec fn channels_view(cs: Seq<Channel>) -> Seq<Seq<char>> {
    cs.map_values(|c: Channel| c@)
}

pub open spec fn links_view(ls: Seq<Link>) -> Seq<(Seq<char>, CaptureInput)> {
    ls.map_values(|l: Link| l@)
}

// ---------------------------------------------------------------------------
// Reading the listing
// ---------------------------------------------------------------------------

/// The marker of a line that names a linked source.
pub open spec fn link_marker() -> Seq<char> {
    "  |<- "@
}

/// A line that starts the ports of `node`: it mentions `node` and is not
/// indented.
pub open spec fn is_node_header(l: Seq<char>, node: Seq<char>) -> bool {
    contains(l, node) && !starts_with(l, " "@)
}

/// A line that still belongs to the ports of `node`.
pub open spec fn in_node(l: Seq<char>, node: Seq<char>) -> bool {
    starts_with(l, "  "@) || contains(l, node)
}

/// The source that a line names, if it is a `  |<- source` line.
pub open spec fn linked_source(l: Seq<char>) -> Seq<Seq<char>> {
    if starts_with(l, link_marker()) {
        seq![l.skip(link_marker().len() as int)]
    } else {
        seq![]
    }
}

/// The sources named in the leading lines of `ls` that belong to `node`.
pub open spec fn block_links(ls: Seq<Seq<char>>, node: Seq<char>) -> Seq<Seq<char>>
    decreases ls.len(),
{
    if ls.len() == 0 || !in_node(ls[0], node) {
        seq![]
    } else {
        linked_source(ls[0]) + block_links(ls.drop_first(), node)
    }
}

/// The sources linked into `node`: the lines before the first header of
/// `node` are skipped, then the lines are taken while they belong to it,
/// and of those the `  |<- source` lines give their sources.
pub open spec fn node_links(ls: Seq<Seq<char>>, node: Seq<char>) -> Seq<Seq<char>>
    decreases ls.len(),
{
    if ls.len() == 0 {
        seq![]
    } else if is_node_header(ls[0], node) {
        block_links(ls, node)
    } else {
        node_links(ls.drop_first(), node)
    }
}

/// The first half of the sources (the left channel) and the rest (the right
/// channel).
pub open spec fn halves(s: Seq<Seq<char>>) -> (Seq<Seq<char>>, Seq<Seq<char>>) {
    (s.take(s.len() as int / 2), s.skip(s.len() as int / 2))
}

/// The sources linked into `node` in the listing `out`, split into the left
/// and the right channel.
pub open spec fn node_channels(out: Seq<char>, node: Seq<char>) -> (Seq<Seq<char>>, Seq<Seq<char>>) {
    halves(node_links(lines(out), node))
}

fn linked_channels(out: &str, node: &str) -> (r: (Vec<Channel>, Vec<Channel>))
    ensures
        (channels_view(r.0@), channels_view(r.1@)) == node_channels(out@, node@),
{
    let cs = chars_of(out);
    let nc = chars_of(node);
    let marker_len = "  |<- ".unicode_len();
    let mut found: Vec<Channel> = Vec::new();
    let mut in_block = false;
    let mut pos: usize = 0;
    let ghost all_lines = lines(cs@);
    proof {
        assert(all_lines =~= lines_from(cs@, 0));
    }
    while pos < cs.len()
        invariant_except_break
            !in_block ==> found@.len() == 0 && node_links(all_lines, node@)
                == node_links(lines_from(cs@, pos as int), node@),
            in_block ==> node_links(all_lines, node@) == channels_view(found@) + block_links(
                lines_from(cs@, pos as int),
                node@,
            ),
        invariant
            pos <= cs.len(),
            cs@ == out@,
            nc@ == node@,
            marker_len == link_marker().len(),
            all_lines == lines(cs@),
        ensures
            node_links(all_lines, node@) == channels_view(found@),
        decreases cs.len() - pos,
    {
        let (a, b, next) = next_line(&cs, pos);
        let ghost l = cs@.subrange(a as int, b as int);
        let ghost rest = lines_from(cs@, pos as int);
        let ghost later = lines_from(cs@, next as int);
        assert(rest[0] == l);
        assert(rest.drop_first() =~= later);
        let mentions = find_in_range(&cs, a, b, &nc).is_some();
        if !in_block {
            if mentions && !range_starts_with(&cs, a, b, " ") {
                in_block = true;
            }
        }
        if in_block {
            if !(range_starts_with(&cs, a, b, "  ") || mentions) {
                assert(block_links(rest, node@) =~= seq![]);
                assert(node_links(all_lines, node@) =~= channels_view(found@));
                break;
            }
            let ghost before = found@;
            if range_starts_with(&cs, a, b, "  |<- ") {
                proof {
                    assert(l.skip(marker_len as int) =~= cs@.subrange(a + marker_len, b as int));
                }
                let source = out.substring_char(a + marker_len, b).to_owned();
                found.push(source);
                assert(channels_view(found@) =~= channels_view(before) + linked_source(l));
            } else {
                assert(channels_view(found@) =~= channels_view(before) + linked_source(l));
            }
        }
        pos = next;
    }
    let ghost all = found@;
    let half = found.len() / 2;
    let right = found.split_off(half);
    assert(channels_view(found@) =~= channels_view(all).take(all.len() as int / 2));
    assert(channels_view(right@) =~= channels_view(all).skip(all.len() as int / 2));
    (found, right)
}

/// The sources already linked into Suono's capture node, as
/// (left channel, right channel).
pub fn get_connected_channels(pw_link_output: &String) -> (r: (Vec<Channel>, Vec<Channel>))
    ensures
        (channels_view(r.0@), channels_view(r.1@)) == node_channels(pw_link_output@, "suono"@),
{
    linked_channels(pw_link_output.as_str(), "suono")
}

/// The sources that play into the sink, as (left channel, right channel).
pub fn get_sink_channels(pw_link_output: &String) -> (r: (Vec<Channel>, Vec<Channel>))
    ensures
        (channels_view(r.0@), channels_view(r.1@)) == node_channels(
            pw_link_output@,
            "sink:playback"@,
        ),
{
    linked_channels(pw_link_output.as_str(), "sink:playback")
}

// ---------------------------------------------------------------------------
// Planning the links
// ---------------------------------------------------------------------------

/// The channels of `sinks` that are not in `connected`, in order.
pub open spec fn missing(sinks: Seq<Seq<char>>, connected: Seq<Seq<char>>) -> Seq<Seq<char>>
    decreases sinks.len(),
{
    if sinks.len() == 0 {
        seq![]
    } else {
        missing(sinks.drop_last(), connected) + if connected.contains(sinks.last()) {
            seq![]
        } else {
            seq![sinks.last()]
        }
    }
}

pub open spec fn links_into(channels: Seq<Seq<char>>, input: CaptureInput) -> Seq<(Seq<char>, CaptureInput)> {
    channels.map_values(|c: Seq<char>| (c, input))
}

/// The links to make for the listing `out`: each left sink channel that is
/// not yet linked into the left capture input, then each such right one.
pub open spec fn planned_links(out: Seq<char>) -> Seq<(Seq<char>, CaptureInput)> {
    let connected = node_channels(out, "suono"@);
    let sinks = node_channels(out, "sink:playback"@);
    links_into(missing(sinks.0, connected.0), CaptureInput::FrontLeft) + links_into(
        missing(sinks.1, connected.1),
        CaptureInput::FrontRight,
    )
}

fn is_listed(channels: &Vec<Channel>, c: &Channel) -> (b: bool)
    ensures
        b == channels_view(channels@).contains(c@),
{
    let mut i: usize = 0;
    while i < channels.len()
        invariant
            i <= channels.len(),
            forall|q: int| 0 <= q < i ==> channels@[q]@ != c@,
        decreases channels.len() - i,
    {
        if channels[i] == *c {
            assert(channels_view(channels@)[i as int] == c@);
            return true;
        }
        i += 1;
    }
    assert forall|q: int| 0 <= q < channels_view(channels@).len() implies channels_view(
        channels@,
    )[q] != c@ by {
        assert(channels@[q]@ != c@);
    }
    false
}

fn plan_links(
    links: &mut Vec<Link>,
    sinks: &Vec<Channel>,
    connected: &Vec<Channel>,
    input: CaptureInput,
)
    ensures
        links_view(final(links)@) == links_view(old(links)@) + links_into(
            missing(channels_view(sinks@), channels_view(connected@)),
            input,
        ),
{
    let ghost start = links_view(links@);
    let mut i: usize = 0;
    while i < sinks.len()
        invariant
            i <= sinks.len(),
            links_view(links@) == start + links_into(
                missing(channels_view(sinks@.take(i as int)), channels_view(connected@)),
                input,
            ),
        decreases sinks.len() - i,
    {
        let ghost before = links_view(links@);
        let ghost done = channels_view(sinks@.take(i as int));
        let ghost next = channels_view(sinks@.take(i + 1));
        assert(next.drop_last() =~= done);
        assert(next.last() == sinks@[i as int]@);
        if !is_listed(connected, &sinks[i]) {
            links.push(Link { channel: sinks[i].clone(), input });
            assert(links_view(links@) =~= before.push((sinks@[i as int]@, input)));
        }
        assert(links_view(links@) =~= start + links_into(
            missing(next, channels_view(connected@)),
            input,
        ));
        i += 1;
    }
    assert(sinks@.take(sinks.len() as int) =~= sinks@);
}

/// The links that `pw-link` has to make so that everything the sink plays
/// is captured, from the listing `pw-link -l` printed.
pub fn connect_to_channels(pw_link_output: &String) -> (r: Vec<Link>)
    ensures
        links_view(r@) == planned_links(pw_link_output@),
{
    let (connected_left, connected_right) = get_connected_channels(pw_link_output);
    let (sinks_left, sinks_right) = get_sink_channels(pw_link_output);
    let mut links: Vec<Link> = Vec::new();
    assert(links_view(links@) =~= seq![]);
    plan_links(&mut links, &sinks_left, &connected_left, CaptureInput::FrontLeft);
    plan_links(&mut links, &sinks_right, &connected_right, CaptureInput::FrontRight);
    links
}

// ---------------------------------------------------------------------------
// Laws
// ---------------------------------------------------------------------------

proof fn lemma_missing_members(sinks: Seq<Seq<char>>, connected: Seq<Seq<char>>, c: Seq<char>)
    ensures
        missing(sinks, connected).contains(c) <==> (sinks.contains(c) && !connected.contains(c)),
    decreases sinks.len(),
{
    if sinks.len() > 0 {
        lemma_missing_members(sinks.drop_last(), connected, c);
        let rest = missing(sinks.drop_last(), connected);
        let tail = if connected.contains(sinks.last()) {
            seq![]
        } else {
            seq![sinks.last()]
        };
        assert(missing(sinks, connected) == rest + tail);
        if (rest + tail).contains(c) {
            let k = choose|k: int| 0 <= k < (rest + tail).len() && (rest + tail)[k] == c;
            if k >= rest.len() {
                assert(tail[k - rest.len()] == c);
                assert(sinks[sinks.len() - 1] == c);
            } else {
                assert(rest[k] == c);
            }
        }
        if sinks.contains(c) && !connected.contains(c) {
            let k = choose|k: int| 0 <= k < sinks.len() && sinks[k] == c;
            if k == sinks.len() - 1 {
                assert((rest + tail)[rest.len() as int] == c);
            } else {
                assert(sinks.drop_last()[k] == c);
                let j = choose|j: int| 0 <= j < rest.len() && rest[j] == c;
                assert((rest + tail)[j] == c);
            }
        }
    }
}

/// A channel is planned for a capture input exactly when the sink plays it
/// on that side and it is not yet linked into that input; in particular,
/// once everything is linked, nothing more is planned.
pub proof fn lemma_planned_exactly_missing(out: Seq<char>, c: Seq<char>)
    ensures
        planned_links(out).contains((c, CaptureInput::FrontLeft)) <==> (node_channels(
            out,
            "sink:playback"@,
        ).0.contains(c) && !node_channels(out, "suono"@).0.contains(c)),
        planned_links(out).contains((c, CaptureInput::FrontRight)) <==> (node_channels(
            out,
            "sink:playback"@,
        ).1.contains(c) && !node_channels(out, "suono"@).1.contains(c)),
{
    let connected = node_channels(out, "suono"@);
    let sinks = node_channels(out, "sink:playback"@);
    let left = missing(sinks.0, connected.0);
    let right = missing(sinks.1, connected.1);
    lemma_missing_members(sinks.0, connected.0, c);
    lemma_missing_members(sinks.1, connected.1, c);
    let l = links_into(left, CaptureInput::FrontLeft);
    let r = links_into(right, CaptureInput::FrontRight);
    assert(planned_links(out) == l + r);
    if (l + r).contains((c, CaptureInput::FrontLeft)) {
        let k = choose|k: int| 0 <= k < (l + r).len() && (l + r)[k] == (c, CaptureInput::FrontLeft);
        if k >= l.len() {
            assert(r[k - l.len()].1 == CaptureInput::FrontRight);
        } else {
            assert(left[k] == c);
        }
    }
    if left.contains(c) {
        let k = choose|k: int| 0 <= k < left.len() && left[k] == c;
        assert((l + r)[k] == (c, CaptureInput::FrontLeft));
    }
    if (l + r).contains((c, CaptureInput::FrontRight)) {
        let k = choose|k: int| 0 <= k < (l + r).len() && (l + r)[k] == (c, CaptureInput::FrontRight);
        if k < l.len() {
            assert(l[k].1 == CaptureInput::FrontLeft);
        } else {
            assert(right[k - l.len()] == c);
        }
    }
    if right.contains(c) {
        let k = choose|k: int| 0 <= k < right.len() && right[k] == c;
        assert((l + r)[l.len() + k] == (c, CaptureInput::FrontRight));
    }
}

/// A link line names exactly the rest of the line after its marker.
pub proof fn lemma_link_line_gives_whole_name(n: Seq<char>)
    ensures
        linked_source(link_marker() + n) == seq![n],
{
    let l = link_marker() + n;
    assert(l.take(link_marker().len() as int) =~= link_marker());
    assert(l.skip(link_marker().len() as int) =~= n);
}

pub open spec fn link_lines(names: Seq<Seq<char>>) -> Seq<Seq<char>> {
    names.map_values(|n: Seq<char>| link_marker() + n)
}

proof fn lemma_block_of_link_lines(names: Seq<Seq<char>>, tail: Seq<Seq<char>>, node: Seq<char>)
    ensures
        block_links(link_lines(names) + tail, node) == names + block_links(tail, node),
    decreases names.len(),
{
    reveal_strlit("  |<- ");
    reveal_strlit("  ");
    let ls = link_lines(names) + tail;
    if names.len() > 0 {
        let first = link_marker() + names[0];
        assert(ls[0] == first);
        assert(first.take(2) =~= "  "@);
        assert(in_node(first, node));
        lemma_link_line_gives_whole_name(names[0]);
        assert(ls.drop_first() =~= link_lines(names.drop_first()) + tail);
        lemma_block_of_link_lines(names.drop_first(), tail, node);
        assert(names + block_links(tail, node) =~= seq![names[0]] + (names.drop_first() + block_links(
            tail,
            node,
        )));
    } else {
        assert(ls =~= tail);
        assert(names + block_links(tail, node) =~= block_links(tail, node));
    }
}

/// Under a header of `node`, the sources are exactly the names on the link
/// lines that follow it, whole and in order.
pub proof fn lemma_node_lists_names(header: Seq<char>, node: Seq<char>, names: Seq<Seq<char>>)
    requires
        is_node_header(header, node),
    ensures
        node_links(seq![header] + link_lines(names), node) == names,
{
    reveal_strlit("  |<- ");
    reveal_strlit(" ");
    let ls = seq![header] + link_lines(names);
    assert(ls[0] == header);
    assert(ls.drop_first() =~= link_lines(names) + seq![]);
    lemma_block_of_link_lines(names, seq![], node);
    assert(names + block_links(seq![], node) =~= names);
    // A header does not start with a space, so it names no source itself.
    if starts_with(header, link_marker()) {
        assert(header.take(1) =~= " "@);
    }
    assert(linked_source(header) =~= seq![]);
    assert(contains(header, node));
    assert(in_node(header, node));
    assert(block_links(ls, node) == linked_source(header) + block_links(ls.drop_first(), node));
    assert(seq![] + names =~= names);
}

/// The text of link lines, one per name, each ended by a line break.
pub open spec fn link_listing(names: Seq<Seq<char>>) -> Seq<char>
    decreases names.len(),
{
    if names.len() == 0 {
        seq![]
    } else {
        link_marker() + names[0] + seq!['\n'] + link_listing(names.drop_first())
    }
}

proof fn lemma_lines_of_link_listing(names: Seq<Seq<char>>)
    requires
        forall|i: int, k: int|
            0 <= i < names.len() && 0 <= k < names[i].len() ==> #[trigger] names[i][k] != '\n',
        forall|i: int| 0 <= i < names.len() && names[i].len() > 0 ==> (#[trigger] names[i]).last() != '\r',
    ensures
        lines(link_listing(names)) == link_lines(names),
    decreases names.len(),
{
    reveal_strlit("  |<- ");
    if names.len() == 0 {
        assert(lines(link_listing(names)) =~= seq![]);
        assert(link_lines(names) =~= seq![]);
    } else {
        let rest = names.drop_first();
        assert forall|i: int, k: int| 0 <= i < rest.len() && 0 <= k < rest[i].len() implies #[trigger] rest[i][k]
            != '\n' by {
            assert(rest[i] == names[i + 1]);
            assert(names[i + 1][k] != '\n');
        }
        assert forall|i: int| 0 <= i < rest.len() && rest[i].len() > 0 implies (#[trigger] rest[i]).last()
            != '\r' by {
            assert(rest[i] == names[i + 1]);
        }
        lemma_lines_of_link_listing(rest);
        let line = link_marker() + names[0];
        assert forall|k: int| 0 <= k < line.len() implies line[k] != '\n' by {
            if k >= link_marker().len() {
                assert(line[k] == names[0][k - link_marker().len()]);
            }
        }
        assert(line.last() != '\r') by {
            if names[0].len() > 0 {
                assert(line.last() == names[0].last());
            }
        }
        assert(terminated_line(line) == line);
        lemma_lines_single(line);
        lemma_lines_append(line + seq!['\n'], link_listing(rest));
        assert(link_listing(names) =~= (line + seq!['\n']) + link_listing(rest));
        assert(link_lines(names) =~= seq![line] + link_lines(rest));
    }
}

/// In a listing made of a header line of `node` followed by one link line
/// per name, the sources linked into `node` are those names, whole, split
/// into the two channels.
pub proof fn lemma_listing_channels(header: Seq<char>, node: Seq<char>, names: Seq<Seq<char>>)
    requires
        is_node_header(header, node),
        forall|k: int| 0 <= k < header.len() ==> header[k] != '\n',
        header.last() != '\r',
        forall|i: int, k: int|
            0 <= i < names.len() && 0 <= k < names[i].len() ==> #[trigger] names[i][k] != '\n',
        forall|i: int| 0 <= i < names.len() && names[i].len() > 0 ==> (#[trigger] names[i]).last() != '\r',
    ensures
        node_channels(header + seq!['\n'] + link_listing(names), node) == halves(names),
{
    lemma_lines_of_link_listing(names);
    assert(header.len() > 0) by {
        crate::text::lemma_find_from_bounds(header, node, 0);
    }
    assert(terminated_line(header) == header);
    lemma_lines_single(header);
    lemma_lines_append(header + seq!['\n'], link_listing(names));
    lemma_node_lists_names(header, node, names);
}

/// The left channel gets the first half of the sources and the right one
/// the rest, nothing lost or reordered; an odd source out goes right.
pub proof fn lemma_halves_split(s: Seq<Seq<char>>)
    ensures
        halves(s).0 + halves(s).1 == s,
        halves(s).0.len() <= halves(s).1.len() <= halves(s).0.len() + 1,
{
    assert(halves(s).0 + halves(s).1 =~= s);
}

/// The sources of a node end at the first line that is neither indented nor
/// mentions the node: later link lines belong to other nodes.
pub proof fn lemma_block_ends(
    header: Seq<char>,
    node: Seq<char>,
    names: Seq<Seq<char>>,
    other: Seq<char>,
    rest: Seq<Seq<char>>,
)
    requires
        is_node_header(header, node),
        !in_node(other, node),
    ensures
        node_links(seq![header] + link_lines(names) + seq![other] + rest, node) == names,
{
    reveal_strlit("  |<- ");
    reveal_strlit(" ");
    let tail = seq![other] + rest;
    let ls = seq![header] + link_lines(names) + tail;
    assert(ls[0] == header);
    assert(ls.drop_first() =~= link_lines(names) + tail);
    lemma_block_of_link_lines(names, tail, node);
    assert(tail[0] == other);
    assert(block_links(tail, node) =~= seq![]);
    if starts_with(header, link_marker()) {
        assert(header.take(1) =~= " "@);
    }
    assert(linked_source(header) =~= seq![]);
    assert(in_node(header, node));
    assert(block_links(ls, node) == linked_source(header) + block_links(ls.drop_first(), node));
    assert(seq![] + (names + seq![]) =~= names);
    assert(node_links(ls, node) == block_links(ls, node));
    assert(seq![header] + link_lines(names) + seq![other] + rest =~= ls);
}

/// Without a header line of a node (an unindented line that mentions it),
/// no source is linked into it.
pub proof fn lemma_no_header_no_links(ls: Seq<Seq<char>>, node: Seq<char>)
    requires
        forall|i: int| 0 <= i < ls.len() ==> !is_node_header(#[trigger] ls[i], node),
    ensures
        node_links(ls, node) == Seq::<Seq<char>>::empty(),
    decreases ls.len(),
{
    if ls.len() > 0 {
        let r = ls.drop_first();
        assert forall|i: int| 0 <= i < r.len() implies !is_node_header(#[trigger] r[i], node) by {
            assert(r[i] == ls[i + 1]);
        }
        assert(!is_node_header(ls[0], node));
        lemma_no_header_no_links(r, node);
    }
}

} // verus!
