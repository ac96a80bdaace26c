//! Reading Maven coordinates out of a POM file: the XML tokenizer is an
//! outside crate's; the event state machine that collects `dependency`
//! coordinates, records `properties`, skips `exclusions`, and substitutes
//! `${...}` versions is verified here.

use vstd::prelude::*;
use crate::json::is_ws;
use crate::maven::MavenPackage;
use crate::util::{chars_of, string_from_chars};

verus! {

// ---------------------------------------------------------------------------
// Events, as plain values
// ---------------------------------------------------------------------------

/// One XML event, reduced to what the POM reader needs.
#[derive(Debug)]
pub enum PomEvent {
    /// An opening tag, with its raw name bytes.
    Start(Vec<u8>),
    /// A closing tag, with its raw name bytes.
    End(Vec<u8>),
    /// Character data.
    Text(String),
    /// End of input.
    Eof,
    /// Any other event.
    Other,
}

pub enum PomEventV {
    Start(Seq<u8>),
    End(Seq<u8>),
    Text(Seq<char>),
    Eof,
    Other,
}

impl View for PomEvent {
    type V = PomEventV;

    open spec fn view(&self) -> PomEventV {
        match self {
            PomEvent::Start(b) => PomEventV::Start(b@),
            PomEvent::End(b) => PomEventV::End(b@),
            PomEvent::Text(t) => PomEventV::Text(t@),
            PomEvent::Eof => PomEventV::Eof,
            PomEvent::Other => PomEventV::Other,
        }
    }
}

#[verifier::external_type_specification]
#[verifier::external_body]
#[verifier::reject_recursive_types(R)]
pub struct ExReader<R>(quick_xml::reader::Reader<R>);

/// Names the events the tokenizer yields for this text, up to but not
/// including its first error-or-end-of-input delivery: a function of the
/// text alone.
pub uninterp spec fn pom_events(s: Seq<char>) -> Seq<PomEventV>;

/// Names the events a reader will still yield before its next
/// error-or-end-of-input delivery.
pub uninterp spec fn pom_remaining(r: quick_xml::reader::Reader<&[u8]>) -> Seq<PomEventV>;

/// Relies on `quick_xml::reader::Reader::from_str`: makes an XML reader
/// over the text. The fresh reader will yield exactly the text's events,
/// and by construction of `next_pom_event` none of them is an end-of-input.
#[verifier::external_body]
pub fn pom_reader<'a>(s: &'a str) -> (r: quick_xml::reader::Reader<&'a [u8]>)
    ensures
        pom_remaining(r) == pom_events(s@),
        forall|i: int|
            0 <= i < pom_remaining(r).len() ==> !((#[trigger] pom_remaining(r)[i]) is Eof),
{
    quick_xml::reader::Reader::from_str(s)
}

/// Relies on `quick_xml::reader::Reader::read_event`: yields the next of
/// the reader's remaining events, or an end-of-input delivery when none
/// remain. A tokenizer error is delivered as an end-of-input event; the
/// underlying reader stays usable after an ill-formed error and may yield
/// further events, so nothing is promised of the reader's state after an
/// end-of-input delivery.
#[verifier::external_body]
pub fn next_pom_event(r: &mut quick_xml::reader::Reader<&[u8]>) -> (ev: PomEvent)
    ensures
        pom_remaining(*old(r)).len() > 0 ==> ev@ == pom_remaining(*old(r))[0] && pom_remaining(
            *final(r),
        ) == pom_remaining(*old(r)).drop_first(),
        pom_remaining(*old(r)).len() == 0 ==> ev@ is Eof,
{
    match r.read_event() {
        Ok(quick_xml::events::Event::Start(e)) => PomEvent::Start(e.name().0.as_bytes().to_vec()),
        Ok(quick_xml::events::Event::End(e)) => PomEvent::End(e.name().0.as_bytes().to_vec()),
        Ok(quick_xml::events::Event::Text(e)) => PomEvent::Text(e.into_inner().into_owned()),
        Ok(quick_xml::events::Event::Eof) => PomEvent::Eof,
        Ok(_) => PomEvent::Other,
        Err(_) => PomEvent::Eof,
    }
}

// ---------------------------------------------------------------------------
// Tag names
// ---------------------------------------------------------------------------

/// The characters after the last `:`.
pub open spec fn spec_after_colon(s: Seq<char>) -> Seq<char>
    decreases s.len(),
{
    if s.len() == 0 {
        s
    } else if s.last() == ':' {
        Seq::empty()
    } else {
        spec_after_colon(s.drop_last()).push(s.last())
    }
}

/// The tag name as text: the whole name decoded as UTF-8 and cut after any
/// namespace prefix, or empty when the bytes are not valid UTF-8.
pub open spec fn spec_strip_ns(t: Seq<u8>) -> Seq<char> {
    if vstd::utf8::valid_utf8(t) {
        spec_after_colon(vstd::utf8::decode_utf8(t))
    } else {
        Seq::empty()
    }
}

proof fn lemma_after_colon_at(t: Seq<char>, i: int)
    requires
        0 <= i <= t.len(),
        forall|k: int| i <= k < t.len() ==> t[k] != ':',
        i > 0 ==> t[i - 1] == ':',
    ensures
        spec_after_colon(t) == t.skip(i),
    decreases t.len() - i,
{
    if t.len() == i {
        if i == 0 {
            assert(spec_after_colon(t) =~= t.skip(0));
        } else {
            assert(t.last() == ':');
            assert(spec_after_colon(t) =~= t.skip(i));
        }
    } else {
        assert(t.last() == t[t.len() - 1]);
        assert(t.last() != ':');
        lemma_after_colon_at(t.drop_last(), i);
        assert(spec_after_colon(t) =~= t.drop_last().skip(i).push(t.last()));
        assert(t.drop_last().skip(i).push(t.last()) =~= t.skip(i));
    }
}

/// Decodes a raw tag name and drops any namespace prefix; a name that is
/// not valid UTF-8 becomes empty.
pub fn strip_ns(tag: &[u8]) -> (r: String)
    ensures
        r@ == spec_strip_ns(tag@),
{
    let text = match crate::util::utf8_to_string(tag) {
        Some(s) => s,
        None => {
            return String::new();
        },
    };
    let cs = chars_of(text.as_str());
    let mut i: usize = cs.len();
    while i > 0 && cs[i - 1] != ':'
        invariant
            i <= cs.len(),
            cs@ == text@,
            forall|k: int| i <= k < cs.len() ==> cs@[k] != ':',
        decreases i,
    {
        i = i - 1;
    }
    proof {
        lemma_after_colon_at(text@, i as int);
    }
    let mut out: Vec<char> = Vec::new();
    let mut j = i;
    while j < cs.len()
        invariant
            i <= j <= cs.len(),
            cs@ == text@,
            out@ == text@.subrange(i as int, j as int),
        decreases cs.len() - j,
    {
        out.push(cs[j]);
        proof {
            assert(out@ =~= text@.subrange(i as int, j + 1 as int));
        }
        j = j + 1;
    }
    proof {
        assert(out@ =~= text@.skip(i as int));
    }
    string_from_chars(&out)
}

// ---------------------------------------------------------------------------
// Text trimming
// ---------------------------------------------------------------------------

pub open spec fn trim_start(s: Seq<char>) -> Seq<char>
    decreases s.len(),
{
    if s.len() > 0 && is_ws(s[0]) {
        trim_start(s.drop_first())
    } else {
        s
    }
}

pub open spec fn trim_end(s: Seq<char>) -> Seq<char>
    decreases s.len(),
{
    if s.len() > 0 && is_ws(s.last()) {
        trim_end(s.drop_last())
    } else {
        s
    }
}

/// The text with its leading and trailing whitespace removed.
pub open spec fn spec_trim(s: Seq<char>) -> Seq<char> {
    trim_end(trim_start(s))
}

fn trim_text(s: &str) -> (r: String)
    ensures
        r@ == spec_trim(s@),
{
    let cs = chars_of(s);
    proof {
        assert(s@.skip(0) =~= s@);
    }
    let mut a: usize = 0;
    while a < cs.len() && (cs[a] == ' ' || cs[a] == '\t' || cs[a] == '\n' || cs[a] == '\r')
        invariant
            a <= cs.len(),
            cs@ == s@,
            trim_start(s@) == trim_start(s@.skip(a as int)),
        decreases cs.len() - a,
    {
        proof {
            assert(s@.skip(a as int)[0] == s@[a as int]);
            assert(s@.skip(a as int).drop_first() =~= s@.skip(a as int + 1));
        }
        a = a + 1;
    }
    proof {
        if a < cs.len() {
            assert(s@.skip(a as int)[0] == s@[a as int]);
        }
        assert(trim_start(s@) == s@.skip(a as int));
    }
    proof {
        assert(s@.skip(a as int).take(cs@.len() - a) =~= s@.skip(a as int));
    }
    let mut b: usize = cs.len();
    while b > a && (cs[b - 1] == ' ' || cs[b - 1] == '\t' || cs[b - 1] == '\n' || cs[b - 1] == '\r')
        invariant
            a <= b <= cs.len(),
            cs@ == s@,
            trim_start(s@) == s@.skip(a as int),
            trim_end(s@.skip(a as int)) == trim_end(s@.skip(a as int).take(b - a)),
        decreases b,
    {
        proof {
            let cur = s@.skip(a as int).take(b - a);
            assert(cur.last() == s@[b - 1]);
            assert(cur.drop_last() =~= s@.skip(a as int).take(b - 1 - a));
        }
        b = b - 1;
    }
    proof {
        let cur = s@.skip(a as int).take(b - a);
        if b > a {
            assert(cur.last() == s@[b - 1]);
        }
        assert(trim_end(cur) == cur);
        assert(spec_trim(s@) == s@.skip(a as int).take(b - a));
    }
    let mut out: Vec<char> = Vec::new();
    let mut j = a;
    while j < b
        invariant
            a <= j <= b <= cs.len(),
            cs@ == s@,
            out@ == s@.skip(a as int).take(j - a),
        decreases b - j,
    {
        out.push(cs[j]);
        proof {
            assert(out@ =~= s@.skip(a as int).take(j + 1 - a));
        }
        j = j + 1;
    }
    string_from_chars(&out)
}

// ---------------------------------------------------------------------------
// The dependency collector
// ---------------------------------------------------------------------------

/// The coordinates of the collected packages, in order.
pub open spec fn pkgs_view(ps: Seq<MavenPackage>) -> Seq<(Seq<char>, Seq<char>, Seq<char>)> {
    Seq::new(ps.len(), |i: int| (ps[i].group_id@, ps[i].artifact_id@, ps[i].version@))
}

/// The value of the last property with this name, if any (a later entry
/// overrides an earlier one).
pub open spec fn lookup_last(props: Seq<(Seq<char>, Seq<char>)>, k: Seq<char>) -> Option<Seq<char>>
    decreases props.len(),
{
    if props.len() == 0 {
        None
    } else if props.last().0 == k {
        Some(props.last().1)
    } else {
        lookup_last(props.drop_last(), k)
    }
}

/// A version text of the form `${name}` is replaced by the property's
/// value; anything not found is kept as written.
pub open spec fn spec_resolve(props: Seq<(Seq<char>, Seq<char>)>, v: Seq<char>) -> Seq<char> {
    match lookup_last(props, v) {
        Some(x) => x,
        None => v,
    }
}

fn resolve_version(props: &Vec<(String, String)>, v: &String) -> (r: String)
    ensures
        r@ == spec_resolve(props.deep_view(), v@),
{
    proof {
        assert(props.deep_view().take(props@.len() as int) =~= props.deep_view());
    }
    let mut i: usize = props.len();
    while i > 0
        invariant
            i <= props.len(),
            lookup_last(props.deep_view(), v@) == lookup_last(
                props.deep_view().take(i as int),
                v@,
            ),
        decreases i,
    {
        proof {
            let pv = props.deep_view().take(i as int);
            assert(pv.last() == props.deep_view()[i - 1]);
            assert(pv.drop_last() =~= props.deep_view().take(i - 1));
        }
        if crate::util::str_eq(props[i - 1].0.as_str(), v.as_str()) {
            return props[i - 1].1.clone();
        }
        i = i - 1;
    }
    proof {
        assert(props.deep_view().take(0) =~= Seq::<(Seq<char>, Seq<char>)>::empty());
    }
    v.clone()
}


/// The state of the POM reader, as plain mathematical values.
#[verifier::ext_equal]
pub struct PomStateV {
    pub in_dependency: bool,
    pub in_properties: bool,
    pub in_exclusions: bool,
    pub current_tag: Seq<char>,
    pub group_id: Seq<char>,
    pub artifact_id: Seq<char>,
    pub version: Seq<char>,
    pub properties: Seq<(Seq<char>, Seq<char>)>,
    pub packages: Seq<(Seq<char>, Seq<char>, Seq<char>)>,
}

pub open spec fn pom_init() -> PomStateV {
    PomStateV {
        in_dependency: false,
        in_properties: false,
        in_exclusions: false,
        current_tag: Seq::empty(),
        group_id: Seq::empty(),
        artifact_id: Seq::empty(),
        version: Seq::empty(),
        properties: Seq::empty(),
        packages: Seq::empty(),
    }
}

/// One step of the POM state machine: how each XML event changes the state.
pub open spec fn pom_step(st: PomStateV, ev: PomEventV) -> PomStateV {
    match ev {
        PomEventV::Start(tb) => {
            let tag = spec_strip_ns(tb);
            PomStateV {
                current_tag: tag,
                in_dependency: st.in_dependency || tag == "dependency"@,
                in_properties: st.in_properties || tag == "properties"@,
                in_exclusions: st.in_exclusions || tag == "exclusions"@,
                group_id: if tag == "dependency"@ {
                    Seq::empty()
                } else {
                    st.group_id
                },
                artifact_id: if tag == "dependency"@ {
                    Seq::empty()
                } else {
                    st.artifact_id
                },
                version: if tag == "dependency"@ {
                    Seq::empty()
                } else {
                    st.version
                },
                ..st
            }
        },
        PomEventV::End(tb) => {
            let tag = spec_strip_ns(tb);
            let complete = tag == "dependency"@ && !st.in_exclusions && st.group_id.len() > 0
                && st.artifact_id.len() > 0 && st.version.len() > 0;
            PomStateV {
                in_dependency: st.in_dependency && tag != "dependency"@,
                in_properties: st.in_properties && tag != "properties"@,
                in_exclusions: st.in_exclusions && tag != "exclusions"@,
                packages: if complete {
                    st.packages.push(
                        (st.group_id, st.artifact_id, spec_resolve(st.properties, st.version)),
                    )
                } else {
                    st.packages
                },
                ..st
            }
        },
        PomEventV::Text(t) => {
            let txt = spec_trim(t);
            if st.in_properties && txt.len() > 0 {
                PomStateV {
                    properties: st.properties.push(
                        (seq!['$', '{'] + st.current_tag + seq!['}'], txt),
                    ),
                    ..st
                }
            } else if st.in_dependency && !st.in_exclusions && txt.len() > 0 {
                PomStateV {
                    group_id: if st.current_tag == "groupId"@ {
                        txt
                    } else {
                        st.group_id
                    },
                    artifact_id: if st.current_tag == "artifactId"@ {
                        txt
                    } else {
                        st.artifact_id
                    },
                    version: if st.current_tag == "version"@ {
                        txt
                    } else {
                        st.version
                    },
                    ..st
                }
            } else {
                st
            }
        },
        PomEventV::Eof => st,
        PomEventV::Other => st,
    }
}

/// The state after a sequence of events.
pub open spec fn pom_run(st: PomStateV, evs: Seq<PomEventV>) -> PomStateV
    decreases evs.len(),
{
    if evs.len() == 0 {
        st
    } else {
        pom_run(pom_step(st, evs[0]), evs.drop_first())
    }
}

pub proof fn lemma_pom_run_snoc(st: PomStateV, evs: Seq<PomEventV>, i: int)
    requires
        0 <= i < evs.len(),
    ensures
        pom_run(st, evs.take(i + 1)) == pom_step(pom_run(st, evs.take(i)), evs[i]),
    decreases i,
{
    if i == 0 {
        assert(evs.take(1) =~= seq![evs[0]]);
        assert(evs.take(1)[0] == evs[0]);
        assert(evs.take(1).drop_first() =~= Seq::<PomEventV>::empty());
        assert(evs.take(0) =~= Seq::<PomEventV>::empty());
        assert(pom_run(st, Seq::<PomEventV>::empty()) == st);
        assert(pom_run(pom_step(st, evs[0]), Seq::<PomEventV>::empty()) == pom_step(st, evs[0]));
    } else {
        assert(evs.take(i + 1)[0] == evs[0]);
        assert(evs.take(i + 1).drop_first() =~= evs.drop_first().take(i));
        assert(evs.take(i)[0] == evs[0]);
        assert(evs.take(i).drop_first() =~= evs.drop_first().take(i - 1));
        lemma_pom_run_snoc(pom_step(st, evs[0]), evs.drop_first(), i - 1);
        assert(evs.drop_first()[i - 1] == evs[i]);
        assert(pom_run(st, evs.take(i + 1)) == pom_run(
            pom_step(st, evs.take(i + 1)[0]),
            evs.take(i + 1).drop_first(),
        ));
        assert(pom_run(st, evs.take(i)) == pom_run(
            pom_step(st, evs.take(i)[0]),
            evs.take(i).drop_first(),
        ));
    }
}

/// The event state machine of the POM reader: tracks whether the cursor is
/// inside a `dependency`, `properties` or `exclusions` element, collects
/// the coordinate texts, and emits a package at each complete dependency.
#[derive(Debug)]
pub struct PomParser {
    pub in_dependency: bool,
    pub in_properties: bool,
    pub in_exclusions: bool,
    pub current_tag: String,
    pub group_id: String,
    pub artifact_id: String,
    pub version: String,
    pub properties: Vec<(String, String)>,
    pub packages: Vec<MavenPackage>,
}

impl View for PomParser {
    type V = PomStateV;

    open spec fn view(&self) -> PomStateV {
        PomStateV {
            in_dependency: self.in_dependency,
            in_properties: self.in_properties,
            in_exclusions: self.in_exclusions,
            current_tag: self.current_tag@,
            group_id: self.group_id@,
            artifact_id: self.artifact_id@,
            version: self.version@,
            properties: self.properties.deep_view(),
            packages: pkgs_view(self.packages@),
        }
    }
}

impl PomParser {
    pub fn new() -> (r: Self)
        ensures
            r@ == pom_init(),
    {
        PomParser {
            in_dependency: false,
            in_properties: false,
            in_exclusions: false,
            current_tag: String::new(),
            group_id: String::new(),
            artifact_id: String::new(),
            version: String::new(),
            properties: Vec::new(),
            packages: Vec::new(),
        }
    }

    /// Advances the state machine by one XML event, exactly as `pom_step`
    /// says.
    pub fn feed(&mut self, ev: PomEvent)
        ensures
            final(self)@ == pom_step(old(self)@, ev@),
    {
        let ghost st0 = self@;
        let ghost evv = ev@;
        proof {
            reveal_strlit("dependency");
            reveal_strlit("properties");
            reveal_strlit("exclusions");
            reveal_strlit("groupId");
            reveal_strlit("artifactId");
            reveal_strlit("version");
            reveal_strlit("${");
            reveal_strlit("}");
            assert("dependency"@[0] == 'd' && "properties"@[0] == 'p' && "exclusions"@[0] == 'e');
            assert("dependency"@ != "properties"@ && "dependency"@ != "exclusions"@
                && "properties"@ != "exclusions"@);
            assert("groupId"@[0] == 'g' && "artifactId"@[0] == 'a' && "version"@[0] == 'v');
            assert("groupId"@ != "artifactId"@ && "groupId"@ != "version"@ && "artifactId"@
                != "version"@);
        }
        match ev {
            PomEvent::Start(tb) => {
                let tag = strip_ns(tb.as_slice());
                if crate::util::str_eq(tag.as_str(), "dependency") {
                    self.in_dependency = true;
                    self.group_id = String::new();
                    self.artifact_id = String::new();
                    self.version = String::new();
                } else if crate::util::str_eq(tag.as_str(), "properties") {
                    self.in_properties = true;
                } else if crate::util::str_eq(tag.as_str(), "exclusions") {
                    self.in_exclusions = true;
                }
                self.current_tag = tag;
                proof {
                    assert(self@ =~~= pom_step(st0, evv));
                }
            },
            PomEvent::End(tb) => {
                let tag = strip_ns(tb.as_slice());
                if crate::util::str_eq(tag.as_str(), "dependency") {
                    self.in_dependency = false;
                    if !self.in_exclusions && !self.group_id.as_str().is_empty()
                        && !self.artifact_id.as_str().is_empty()
                        && !self.version.as_str().is_empty() {
                        let ghost pre = self.packages@;
                        let resolved = resolve_version(&self.properties, &self.version);
                        let pkg = MavenPackage::new(
                            self.group_id.as_str(),
                            self.artifact_id.as_str(),
                            resolved.as_str(),
                        );
                        self.packages.push(pkg);
                        proof {
                            assert(pkgs_view(self.packages@) =~= pkgs_view(pre).push(
                                (
                                    self.group_id@,
                                    self.artifact_id@,
                                    spec_resolve(self.properties.deep_view(), self.version@),
                                ),
                            ));
                        }
                    }
                } else if crate::util::str_eq(tag.as_str(), "properties") {
                    self.in_properties = false;
                } else if crate::util::str_eq(tag.as_str(), "exclusions") {
                    self.in_exclusions = false;
                }
                proof {
                    assert(self@ =~~= pom_step(st0, evv));
                }
            },
            PomEvent::Text(t) => {
                let txt = trim_text(t.as_str());
                if txt.as_str().is_empty() {
                    return;
                }
                if self.in_properties {
                    let mut k = String::from_str("${");
                    k.append(self.current_tag.as_str());
                    k.append("}");
                    let ghost pre = self.properties.deep_view();
                    proof {
                        assert("${"@ =~= seq!['$', '{']);
                        assert("}"@ =~= seq!['}']);
                        assert(k@ == seq!['$', '{'] + self.current_tag@ + seq!['}']);
                    }
                    self.properties.push((k, txt));
                    proof {
                        assert(self.properties.deep_view() =~= pre.push(
                            (seq!['$', '{'] + self.current_tag@ + seq!['}'], spec_trim(t@)),
                        ));
                    }
                } else if self.in_dependency && !self.in_exclusions {
                    if crate::util::str_eq(self.current_tag.as_str(), "groupId") {
                        self.group_id = txt;
                    } else if crate::util::str_eq(self.current_tag.as_str(), "artifactId") {
                        self.artifact_id = txt;
                    } else if crate::util::str_eq(self.current_tag.as_str(), "version") {
                        self.version = txt;
                    }
                }
                proof {
                    assert(self@ =~~= pom_step(st0, evv));
                }
            },
            PomEvent::Eof => {},
            PomEvent::Other => {},
        }
    }
}

/// Reads every complete `dependency` of a POM document, with `${...}`
/// versions substituted from its `properties`; dependencies inside
/// `exclusions` are skipped. The result is exactly the fold of the state
/// machine over the tokenizer's event stream for this text.
pub fn parse_pom(text: &str) -> (r: Vec<MavenPackage>)
    ensures
        pkgs_view(r@) == pom_run(pom_init(), pom_events(text@)).packages,
{
    let mut reader = pom_reader(text);
    let mut p = PomParser::new();
    let ghost evs = pom_events(text@);
    proof {
        assert(evs.skip(0) =~= evs);
        assert(evs.take(0) =~= Seq::<PomEventV>::empty());
    }
    let ghost mut i: int = 0;
    loop
        invariant_except_break
            0 <= i <= evs.len(),
            pom_remaining(reader) == evs.skip(i),
            p@ == pom_run(pom_init(), evs.take(i)),
            forall|j: int| 0 <= j < evs.len() ==> !((#[trigger] evs[j]) is Eof),
        ensures
            p@ == pom_run(pom_init(), evs),
        decreases evs.len() - i,
    {
        let ghost rem = pom_remaining(reader);
        let ev = next_pom_event(&mut reader);
        proof {
            if i < evs.len() {
                assert(rem[0] == evs[i]);
                assert(rem.drop_first() =~= evs.skip(i + 1));
            }
        }
        match ev {
            PomEvent::Eof => {
                proof {
                    assert(i == evs.len());
                    assert(evs.take(i) =~= evs);
                }
                break;
            },
            other => {
                p.feed(other);
                proof {
                    lemma_pom_run_snoc(pom_init(), evs, i);
                    i = i + 1;
                }
            },
        }
    }
    p.packages
}

} // verus!
