//! The robots.txt parser and the access analysis for known AI crawlers.

use vstd::prelude::*;

use crate::text::{spec_lower, spec_starts_with, spec_trim};

verus! {

/// Crawling rules recorded for one user agent.
pub struct AgentRules {
    pub user_agent: String,
    pub disallow: Vec<String>,
    pub allow: Vec<String>,
    pub crawl_delay: Option<u32>,
    pub blocks_all: bool,
}

/// View of one agent's rules.
#[verifier::ext_equal]
pub struct ARView {
    pub user_agent: Seq<char>,
    pub disallow: Seq<Seq<char>>,
    pub allow: Seq<Seq<char>>,
    pub crawl_delay: Option<u32>,
    pub blocks_all: bool,
}

pub open spec fn arview(r: AgentRules) -> ARView {
    ARView {
        user_agent: r.user_agent@,
        disallow: r.disallow@.map_values(|s: String| s@),
        allow: r.allow@.map_values(|s: String| s@),
        crawl_delay: r.crawl_delay,
        blocks_all: r.blocks_all,
    }
}

impl Clone for AgentRules {
    fn clone(&self) -> (r: AgentRules)
        ensures
            arview(r) == arview(*self),
    {
        let mut disallow: Vec<String> = Vec::new();
        let mut i: usize = 0;
        while i < self.disallow.len()
            invariant
                i <= self.disallow@.len(),
                disallow@.len() == i,
                forall|j: int| 0 <= j < i ==> #[trigger] disallow@[j]@ == self.disallow@[j]@,
            decreases self.disallow@.len() - i,
        {
            disallow.push(self.disallow[i].clone());
            i = i + 1;
        }
        let mut allow: Vec<String> = Vec::new();
        let mut i: usize = 0;
        while i < self.allow.len()
            invariant
                i <= self.allow@.len(),
                allow@.len() == i,
                forall|j: int| 0 <= j < i ==> #[trigger] allow@[j]@ == self.allow@[j]@,
            decreases self.allow@.len() - i,
        {
            allow.push(self.allow[i].clone());
            i = i + 1;
        }
        let r = AgentRules {
            user_agent: self.user_agent.clone(),
            disallow,
            allow,
            crawl_delay: match self.crawl_delay {
                Some(d) => Some(d),
                None => None,
            },
            blocks_all: self.blocks_all,
        };
        proof {
            assert(arview(r).disallow =~= arview(*self).disallow);
            assert(arview(r).allow =~= arview(*self).allow);
        }
        r
    }
}

/// Rules per user agent, keyed by the agent name; one entry per name, a
/// later record replacing an earlier one.
pub struct AgentRulesMap {
    pub entries: Vec<(String, AgentRules)>,
}

pub open spec fn amview(m: AgentRulesMap) -> Seq<(Seq<char>, ARView)> {
    m.entries@.map_values(|p: (String, AgentRules)| (p.0@, arview(p.1)))
}

/// Index of the entry recorded for `key`, or `-1`.
pub open spec fn agent_index(entries: Seq<(Seq<char>, ARView)>, key: Seq<char>) -> int
    decreases entries,
{
    if entries.len() == 0 {
        -1
    } else if entries.first().0 == key {
        0
    } else {
        let r = agent_index(entries.drop_first(), key);
        if r < 0 {
            -1
        } else {
            r + 1
        }
    }
}

pub broadcast proof fn agent_index_props(entries: Seq<(Seq<char>, ARView)>, key: Seq<char>)
    ensures
        -1 <= #[trigger] agent_index(entries, key) < entries.len(),
        agent_index(entries, key) >= 0 ==> entries[agent_index(entries, key)].0 == key,
        agent_index(entries, key) == -1 ==> forall|j: int|
            0 <= j < entries.len() ==> entries[j].0 != key,
    decreases entries,
{
    if entries.len() > 0 && entries.first().0 != key {
        agent_index_props(entries.drop_first(), key);
        assert forall|j: int|
            agent_index(entries, key) == -1 && 0 <= j < entries.len() implies entries[j].0
            != key by {
            if j > 0 {
                assert(entries.drop_first()[j - 1] == entries[j]);
            }
        }
    }
}

/// What inserting under a key does: replace the entry, or append one.
pub open spec fn spec_map_insert(
    entries: Seq<(Seq<char>, ARView)>,
    key: Seq<char>,
    val: ARView,
) -> Seq<(Seq<char>, ARView)> {
    let i = agent_index(entries, key);
    if i >= 0 {
        entries.update(i, (key, val))
    } else {
        entries.push((key, val))
    }
}

impl AgentRulesMap {
    pub fn new() -> (r: AgentRulesMap)
        ensures
            amview(r) == Seq::<(Seq<char>, ARView)>::empty(),
    {
        let r = AgentRulesMap { entries: Vec::new() };
        proof {
            assert(amview(r) =~= Seq::<(Seq<char>, ARView)>::empty());
        }
        r
    }

    fn find(&self, key: &str) -> (r: Option<usize>)
        ensures
            match r {
                Some(i) => i < self.entries@.len() && i == agent_index(amview(*self), key@),
                None => agent_index(amview(*self), key@) == -1,
            },
    {
        let ghost mv = amview(*self);
        proof {
            assert(mv.skip(0) =~= mv);
        }
        let kc = crate::text::to_chars(key);
        let mut i: usize = 0;
        while i < self.entries.len()
            invariant
                i <= self.entries@.len(),
                mv == amview(*self),
                mv.len() == self.entries@.len(),
                kc@ == key@,
                agent_index(mv, key@) == if agent_index(mv.skip(i as int), key@) >= 0 {
                    i + agent_index(mv.skip(i as int), key@)
                } else {
                    -1
                },
            decreases self.entries@.len() - i,
        {
            proof {
                agent_index_props(mv.skip(i as int), key@);
                assert(mv.skip(i as int).first() == mv[i as int]);
            }
            if crate::text::chars_eq(
                crate::text::to_chars(self.entries[i].0.as_str()).as_slice(),
                kc.as_slice(),
            ) {
                return Some(i);
            }
            proof {
                assert(mv.skip(i as int).drop_first() =~= mv.skip(i + 1));
            }
            i = i + 1;
        }
        proof {
            assert(mv.skip(mv.len() as int) =~= Seq::<(Seq<char>, ARView)>::empty());
        }
        None
    }

    /// Record rules under an agent name, replacing an earlier record.
    pub fn insert(&mut self, key: String, val: AgentRules)
        ensures
            amview(*final(self)) == spec_map_insert(amview(*old(self)), key@, arview(val)),
    {
        proof {
            agent_index_props(amview(*self), key@);
        }
        let found = self.find(key.as_str());
        match found {
            Some(i) => {
                self.entries.remove(i);
                self.entries.insert(i, (key, val));
                proof {
                    assert(amview(*self) =~= spec_map_insert(amview(*old(self)), key@, arview(
                        val,
                    )));
                }
            },
            None => {
                self.entries.push((key, val));
                proof {
                    assert(amview(*self) =~= spec_map_insert(amview(*old(self)), key@, arview(
                        val,
                    )));
                }
            },
        }
    }

    /// The rules recorded for an agent name, if any.
    pub fn get<'a>(&'a self, key: &str) -> (r: Option<&'a AgentRules>)
        ensures
            match r {
                Some(v) => agent_index(amview(*self), key@) >= 0 && arview(*v) == amview(
                    *self,
                )[agent_index(amview(*self), key@)].1,
                None => agent_index(amview(*self), key@) == -1,
            },
    {
        let found = self.find(key);
        match found {
            Some(i) => {
                proof {
                    assert(amview(*self)[i as int].1 == arview(self.entries@[i as int].1));
                }
                Some(&self.entries[i].1)
            },
            None => None,
        }
    }

    pub fn contains_key(&self, key: &str) -> (r: bool)
        ensures
            r == (agent_index(amview(*self), key@) >= 0),
    {
        let found = self.find(key);
        match found {
            Some(_) => true,
            None => false,
        }
    }

    /// How many agents have rules recorded.
    pub fn len(&self) -> (r: usize)
        ensures
            r == amview(*self).len(),
    {
        proof {
            assert(amview(*self).len() == self.entries@.len());
        }
        self.entries.len()
    }
}

/// Access recorded for one crawler.
#[derive(PartialEq, Eq, Structural, Clone, Copy, Debug)]
pub enum AccessLevel {
    Allowed,
    Partial,
    Blocked,
    Default,
}

/// One known AI crawler's standing under the parsed rules.
pub struct AiCrawlerStatus {
    pub name: String,
    pub access: AccessLevel,
    pub applicable_rules: Option<String>,
}

/// Everything read out of a robots.txt document.
pub struct RobotsTxtAnalysis {
    pub found: bool,
    pub status_code: u16,
    pub content: Option<String>,
    pub sitemaps: Vec<String>,
    pub agent_rules: AgentRulesMap,
    pub ai_crawler_status: Vec<AiCrawlerStatus>,
    pub issues: Vec<String>,
}


// ---------------------------------------------------------------------------
// Parsing.
// ---------------------------------------------------------------------------

/// Parser state while walking the lines of a robots.txt document.
#[verifier::ext_equal]
pub struct RState {
    pub cur: Option<ARView>,
    pub entries: Seq<(Seq<char>, ARView)>,
    pub sitemaps: Seq<Seq<char>>,
}

/// The lines of a text, split at `\n`; a trailing newline adds no line.
pub open spec fn spec_lines(s: Seq<char>) -> Seq<Seq<char>>
    decreases s.len(),
        via spec_lines_dec
{
    if s.len() == 0 {
        Seq::<Seq<char>>::empty()
    } else {
        let nl = spec_find_char(s, '\n');
        if nl < 0 {
            seq![s]
        } else {
            seq![s.take(nl)] + spec_lines(s.skip(nl + 1))
        }
    }
}

#[via_fn]
proof fn spec_lines_dec(s: Seq<char>) {
    if s.len() > 0 {
        spec_find_char_props(s, '\n');
    }
}

/// Index of the first occurrence of `c`, or `-1`.
pub open spec fn spec_find_char(s: Seq<char>, c: char) -> int
    decreases s.len(),
{
    if s.len() == 0 {
        -1
    } else if s.first() == c {
        0
    } else {
        let r = spec_find_char(s.drop_first(), c);
        if r < 0 {
            -1
        } else {
            r + 1
        }
    }
}

pub broadcast proof fn spec_find_char_props(s: Seq<char>, c: char)
    ensures
        -1 <= #[trigger] spec_find_char(s, c) < s.len(),
        spec_find_char(s, c) >= 0 ==> s[spec_find_char(s, c)] == c,
        spec_find_char(s, c) == -1 ==> forall|j: int| 0 <= j < s.len() ==> s[j] != c,
        forall|j: int| 0 <= j < spec_find_char(s, c) ==> s[j] != c,
    decreases s.len(),
{
    if s.len() > 0 && s.first() != c {
        spec_find_char_props(s.drop_first(), c);
        assert forall|j: int|
            (spec_find_char(s, c) == -1 && 0 <= j < s.len()) || (0 <= j < spec_find_char(
                s,
                c,
            )) implies s[j] != c by {
            if j > 0 {
                assert(s.drop_first()[j - 1] == s[j]);
            }
        }
    }
}

/// Length of the run of `0` characters starting at `i`.
pub open spec fn zero_run(s: Seq<char>, i: int) -> int
    decreases s.len() - i,
{
    if 0 <= i < s.len() && s[i] == '0' {
        1 + zero_run(s, i + 1)
    } else {
        0
    }
}

/// The numeric value of a `u32` written in decimal, an optional `+` allowed:
/// all digits, leading zeros skipped, at most ten significant digits, and a
/// value within range.
pub open spec fn spec_parse_u32(s: Seq<char>) -> Option<u32> {
    let i0: int = if s.len() > 0 && s.first() == '+' {
        1
    } else {
        0
    };
    if s.len() == i0 || crate::json::digit_run(s, i0) != s.len() - i0 {
        None
    } else {
        let z = i0 + zero_run(s, i0);
        if s.len() - z > 10 {
            None
        } else {
            let v = crate::price::digits_val(s, z, s.len() as int);
            if v <= 0xFFFFFFFF {
                Some(v as u32)
            } else {
                None
            }
        }
    }
}

/// One line of a robots.txt document applied to the parser state.
pub open spec fn robots_line(st: RState, raw: Seq<char>) -> RState {
    let l = spec_trim(raw);
    if l.len() == 0 || l.first() == '#' {
        st
    } else {
        let ci = spec_find_char(l, ':');
        if ci < 0 {
            st
        } else {
            let directive = spec_lower(spec_trim(l.take(ci)));
            let value = spec_trim(l.skip(ci + 1));
            if directive == "user-agent"@ {
                let entries = match st.cur {
                    Some(c) => spec_map_insert(st.entries, c.user_agent, c),
                    None => st.entries,
                };
                RState {
                    cur: Some(
                        ARView {
                            user_agent: value,
                            disallow: Seq::<Seq<char>>::empty(),
                            allow: Seq::<Seq<char>>::empty(),
                            crawl_delay: None,
                            blocks_all: false,
                        },
                    ),
                    entries: entries,
                    sitemaps: st.sitemaps,
                }
            } else if directive == "disallow"@ {
                match st.cur {
                    Some(c) => if value.len() > 0 {
                        RState {
                            cur: Some(
                                ARView {
                                    disallow: c.disallow.push(value),
                                    blocks_all: c.blocks_all || value == "/"@,
                                    ..c
                                },
                            ),
                            ..st
                        }
                    } else {
                        st
                    },
                    None => st,
                }
            } else if directive == "allow"@ {
                match st.cur {
                    Some(c) => if value.len() > 0 {
                        RState { cur: Some(ARView { allow: c.allow.push(value), ..c }), ..st }
                    } else {
                        st
                    },
                    None => st,
                }
            } else if directive == "crawl-delay"@ {
                match st.cur {
                    Some(c) => match spec_parse_u32(value) {
                        Some(d) => RState { cur: Some(ARView { crawl_delay: Some(d), ..c }), ..st },
                        None => st,
                    },
                    None => st,
                }
            } else if directive == "sitemap"@ {
                if value.len() > 0 {
                    RState { sitemaps: st.sitemaps.push(value), ..st }
                } else {
                    st
                }
            } else {
                st
            }
        }
    }
}

/// The first `n` lines applied in order.
pub open spec fn robots_fold(lines: Seq<Seq<char>>, n: int) -> RState
    decreases n,
{
    if n <= 0 || n > lines.len() {
        RState {
            cur: None,
            entries: Seq::<(Seq<char>, ARView)>::empty(),
            sitemaps: Seq::<Seq<char>>::empty(),
        }
    } else {
        robots_line(robots_fold(lines, n - 1), lines[n - 1])
    }
}

/// The rules and sitemaps a whole document parses to: every line folded,
/// the open agent record flushed at the end.
pub open spec fn spec_parse_robots(content: Seq<char>) -> (Seq<(Seq<char>, ARView)>, Seq<
    Seq<char>,
>) {
    let lines = spec_lines(content);
    let st = robots_fold(lines, lines.len() as int);
    let entries = match st.cur {
        Some(c) => spec_map_insert(st.entries, c.user_agent, c),
        None => st.entries,
    };
    (entries, st.sitemaps)
}


/// Read a `u32` written in decimal from a text.
pub fn parse_u32_text(s: &str) -> (r: Option<u32>)
    ensures
        r == spec_parse_u32(s@),
{
    parse_u32(crate::text::to_chars(s).as_slice())
}

/// Read a `u32` written in decimal, an optional `+` allowed.
fn parse_u32(s: &[char]) -> (r: Option<u32>)
    ensures
        r == spec_parse_u32(s@),
{
    let i0: usize = if s.len() > 0 && s[0] == '+' {
        1
    } else {
        0
    };
    if s.len() == i0 {
        return None;
    }
    let run = crate::price::digit_run_pub(s, i0);
    if i0 + run != s.len() {
        return None;
    }
    let mut z = i0;
    while z < s.len() && s[z] == '0'
        invariant
            i0 <= z <= s@.len(),
            zero_run(s@, i0 as int) == (z - i0) + zero_run(s@, z as int),
        decreases s@.len() - z,
    {
        z = z + 1;
    }
    proof {
        assert(zero_run(s@, z as int) == 0);
    }
    if s.len() - z > 10 {
        return None;
    }
    let v = crate::price::digits_value_pub(s, z, s.len());
    if v <= 0xFFFFFFFF {
        Some(v as u32)
    } else {
        None
    }
}


/// Apply one raw line to the executable parser state.
fn apply_line(
    cur: &mut Option<AgentRules>,
    map: &mut AgentRulesMap,
    sitemaps: &mut Vec<String>,
    raw: &[char],
)
    ensures
        ({
            let st0 = RState {
                cur: match *old(cur) {
                    Some(c) => Some(arview(c)),
                    None => None,
                },
                entries: amview(*old(map)),
                sitemaps: old(sitemaps)@.map_values(|s: String| s@),
            };
            let st1 = robots_line(st0, raw@);
            &&& (match *final(cur) {
                Some(c) => st1.cur == Some(arview(c)),
                None => st1.cur is None,
            })
            &&& amview(*final(map)) == st1.entries
            &&& final(sitemaps)@.map_values(|s: String| s@) == st1.sitemaps
        }),
{
    let ghost st0 = RState {
        cur: match cur {
            Some(c) => Some(arview(*c)),
            None => None,
        },
        entries: amview(*map),
        sitemaps: sitemaps@.map_values(|s: String| s@),
    };
    let l = crate::text::trim_chars(raw);
    if l.len() == 0 || l[0] == '#' {
        return ;
    }
    let ci = match crate::text::find_char(l.as_slice(), ':') {
        Some(ci) => ci,
        None => {
            proof {
                spec_find_char_props(l@, ':');
                if spec_find_char(l@, ':') >= 0 {
                    assert(l@[spec_find_char(l@, ':')] == ':');
                }
            }
            return ;
        },
    };
    proof {
        spec_find_char_props(l@, ':');
        assert(spec_find_char(l@, ':') == ci) by {
            if spec_find_char(l@, ':') < ci {
                assert(l@[spec_find_char(l@, ':')] == ':');
            }
        }
    }
    let directive_raw = crate::text::sub_chars(l.as_slice(), 0, ci);
    let directive_trimmed = crate::text::trim_chars(directive_raw.as_slice());
    let directive = crate::text::lower_chars(directive_trimmed.as_slice());
    let value_raw = crate::text::sub_chars(l.as_slice(), ci + 1, l.len());
    let value = crate::text::trim_chars(value_raw.as_slice());
    proof {
        assert(l@.subrange(0, ci as int) =~= l@.take(ci as int));
        assert(l@.subrange(ci + 1, l@.len() as int) =~= l@.skip(ci + 1));
    }
    if crate::text::chars_eq(directive.as_slice(), crate::text::to_chars("user-agent").as_slice()) {
        match cur {
            Some(c) => {
                map.insert(c.user_agent.clone(), c.clone());
            },
            None => {},
        }
        let fresh = AgentRules {
            user_agent: crate::text::from_chars(&value),
            disallow: Vec::new(),
            allow: Vec::new(),
            crawl_delay: None,
            blocks_all: false,
        };
        proof {
            assert(arview(fresh).disallow =~= Seq::<Seq<char>>::empty());
            assert(arview(fresh).allow =~= Seq::<Seq<char>>::empty());
        }
        *cur = Some(fresh);
    } else if crate::text::chars_eq(
        directive.as_slice(),
        crate::text::to_chars("disallow").as_slice(),
    ) {
        match cur {
            Some(c) => {
                if value.len() > 0 {
                    let ghost cv = arview(*c);
                    let vs = crate::text::from_chars(&value);
                    let blocks = crate::text::chars_eq(
                        value.as_slice(),
                        crate::text::to_chars("/").as_slice(),
                    );
                    c.disallow.push(vs);
                    if blocks {
                        c.blocks_all = true;
                    }
                    proof {
                        assert(arview(*c).disallow =~= cv.disallow.push(value@));
                    }
                }
            },
            None => {},
        }
    } else if crate::text::chars_eq(
        directive.as_slice(),
        crate::text::to_chars("allow").as_slice(),
    ) {
        match cur {
            Some(c) => {
                if value.len() > 0 {
                    let ghost cv = arview(*c);
                    let vs = crate::text::from_chars(&value);
                    c.allow.push(vs);
                    proof {
                        assert(arview(*c).allow =~= cv.allow.push(value@));
                    }
                }
            },
            None => {},
        }
    } else if crate::text::chars_eq(
        directive.as_slice(),
        crate::text::to_chars("crawl-delay").as_slice(),
    ) {
        match cur {
            Some(c) => {
                let parsed = parse_u32(value.as_slice());
                match parsed {
                    Some(d) => {
                        c.crawl_delay = Some(d);
                    },
                    None => {},
                }
            },
            None => {},
        }
    } else if crate::text::chars_eq(
        directive.as_slice(),
        crate::text::to_chars("sitemap").as_slice(),
    ) {
        if value.len() > 0 {
            let ghost sv = sitemaps@.map_values(|s: String| s@);
            sitemaps.push(crate::text::from_chars(&value));
            proof {
                assert(sitemaps@.map_values(|s: String| s@) =~= sv.push(value@));
            }
        }
    }
}

/// Parse a robots.txt document: rules per user agent, sitemap entries, the
/// access standing of the known AI crawlers, and any issues found.
#[verifier::loop_isolation(false)]
#[verifier::rlimit(30)]
pub fn parse_robots_txt(content: &str) -> (r: RobotsTxtAnalysis)
    ensures
        r.found == true,
        r.status_code == 200,
        (match r.content {
            Some(c) => c@ == content@,
            None => false,
        }),
        amview(r.agent_rules) == spec_parse_robots(content@).0,
        r.sitemaps@.map_values(|s: String| s@) == spec_parse_robots(content@).1,
        r.ai_crawler_status@.len() == 7,
        forall|j: int| 0 <= j < r.ai_crawler_status@.len() ==> (
        #[trigger] r.ai_crawler_status@[j]).name@ == spec_crawler_names()[j],
        forall|j: int| 0 <= j < r.ai_crawler_status@.len() ==> (
        #[trigger] r.ai_crawler_status@[j]).access == spec_determine_access(
            spec_parse_robots(content@).0,
            r.ai_crawler_status@[j].name@,
        ),
        r.issues@.map_values(|s: String| s@) == spec_robots_issues(spec_parse_robots(content@)),
{
    let cs = crate::text::to_chars(content);
    let ghost all_lines = spec_lines(content@);
    let mut cur: Option<AgentRules> = None;
    let mut map = AgentRulesMap::new();
    let mut sitemaps: Vec<String> = Vec::new();
    let mut pos: usize = 0;
    let ghost mut done: int = 0;
    proof {
        assert(sitemaps@.map_values(|s: String| s@) =~= Seq::<Seq<char>>::empty());
        assert(content@.skip(0) =~= content@);
        assert(all_lines.skip(0) =~= all_lines);
    }
    while pos < cs.len()
        invariant
            pos <= cs@.len(),
            cs@ == content@,
            0 <= done <= all_lines.len(),
            spec_lines(content@.skip(pos as int)) =~= all_lines.skip(done),
            pos < cs@.len() ==> done < all_lines.len(),
            ({
                let st = robots_fold(all_lines, done);
                &&& (match cur {
                    Some(c) => st.cur == Some(arview(c)),
                    None => st.cur is None,
                })
                &&& amview(map) == st.entries
                &&& sitemaps@.map_values(|s: String| s@) == st.sitemaps
            }),
        decreases cs@.len() - pos,
    {
        let ghost rem = content@.skip(pos as int);
        let nl = crate::text::find_char_from(cs.as_slice(), pos, '\n');
        let (line_end, next_pos): (usize, usize) = match nl {
            Some(i) => (i, i + 1),
            None => (cs.len(), cs.len()),
        };
        proof {
            spec_find_char_props(rem, '\n');
            match nl {
                Some(i) => {
                    assert(rem[i - pos] == '\n');
                    assert(spec_find_char(rem, '\n') == i - pos) by {
                        if spec_find_char(rem, '\n') < i - pos {
                            assert(rem[spec_find_char(rem, '\n')] == '\n');
                            assert(content@[pos + spec_find_char(rem, '\n')] == '\n');
                        }
                    }
                    assert(all_lines.skip(done).first() == rem.take(i - pos));
                    assert(rem.take(i - pos) =~= content@.subrange(pos as int, i as int));
                    assert(rem.skip(i - pos + 1) =~= content@.skip(i + 1));
                },
                None => {
                    assert(spec_find_char(rem, '\n') == -1) by {
                        if spec_find_char(rem, '\n') >= 0 {
                            assert(rem[spec_find_char(rem, '\n')] == '\n');
                            assert(content@[pos + spec_find_char(rem, '\n')] == '\n');
                        }
                    }
                    assert(all_lines.skip(done).first() == rem);
                    assert(rem =~= content@.subrange(pos as int, cs@.len() as int));
                    assert(content@.skip(cs@.len() as int).len() == 0);
                },
            }
            assert(all_lines.skip(done).first() == all_lines[done]);
            assert(all_lines.skip(done).drop_first() =~= all_lines.skip(done + 1));
        }
        let line = crate::text::sub_chars(cs.as_slice(), pos, line_end);
        apply_line(&mut cur, &mut map, &mut sitemaps, line.as_slice());
        pos = next_pos;
        proof {
            done = done + 1;
            if pos < cs@.len() {
                assert(spec_lines(content@.skip(pos as int)).len() > 0);
            }
        }
    }
    proof {
        assert(content@.skip(cs@.len() as int).len() == 0);
        assert(all_lines.skip(done).len() == 0);
        assert(done == all_lines.len());
    }
    // flush the open record
    match &cur {
        Some(c) => {
            map.insert(c.user_agent.clone(), c.clone());
        },
        None => {},
    }
    let statuses = analyze_ai_crawlers(&map);
    let mut issues: Vec<String> = Vec::new();
    if sitemaps.len() == 0 {
        issues.push(crate::text::from_chars(&crate::text::to_chars("No sitemap URLs found")));
    }
    let wildcard_blocks = match map.get("*") {
        Some(w) => w.blocks_all,
        None => false,
    };
    if wildcard_blocks {
        issues.push(
            crate::text::from_chars(
                &crate::text::to_chars("Warning: All bots blocked with 'Disallow: /'"),
            ),
        );
    }
    proof {
        agent_index_props(amview(map), "*"@);
        assert(issues@.map_values(|s: String| s@) =~= spec_robots_issues(
            spec_parse_robots(content@),
        ));
    }
    let analysis = RobotsTxtAnalysis {
        found: true,
        status_code: 200,
        content: Some(crate::text::from_chars(&cs)),
        sitemaps,
        agent_rules: map,
        ai_crawler_status: statuses,
        issues,
    };
    analysis
}

/// The issues a parsed document raises: no sitemap recorded, or the
/// wildcard agent blocking the whole site.
pub open spec fn spec_robots_issues(parsed: (Seq<(Seq<char>, ARView)>, Seq<Seq<char>>)) -> Seq<
    Seq<char>,
> {
    let base: Seq<Seq<char>> = if parsed.1.len() == 0 {
        seq!["No sitemap URLs found"@]
    } else {
        Seq::<Seq<char>>::empty()
    };
    let wi = agent_index(parsed.0, "*"@);
    if wi >= 0 && parsed.0[wi].1.blocks_all {
        base.push("Warning: All bots blocked with 'Disallow: /'"@)
    } else {
        base
    }
}


// ---------------------------------------------------------------------------
// Access analysis for the known AI crawlers.
// ---------------------------------------------------------------------------

/// First entry whose agent name equals `key` ASCII case-insensitively.
pub open spec fn agent_index_ci(entries: Seq<(Seq<char>, ARView)>, key: Seq<char>) -> int
    decreases entries,
{
    if entries.len() == 0 {
        -1
    } else if spec_lower(entries.first().0) == spec_lower(key) {
        0
    } else {
        let r = agent_index_ci(entries.drop_first(), key);
        if r < 0 {
            -1
        } else {
            r + 1
        }
    }
}

pub broadcast proof fn agent_index_ci_props(entries: Seq<(Seq<char>, ARView)>, key: Seq<char>)
    ensures
        -1 <= #[trigger] agent_index_ci(entries, key) < entries.len(),
        agent_index_ci(entries, key) >= 0 ==> spec_lower(
            entries[agent_index_ci(entries, key)].0,
        ) == spec_lower(key),
    decreases entries,
{
    if entries.len() > 0 && spec_lower(entries.first().0) != spec_lower(key) {
        agent_index_ci_props(entries.drop_first(), key);
    }
}

/// The access an agent's rules grant.
pub open spec fn spec_rules_access(r: ARView) -> AccessLevel {
    if r.blocks_all {
        AccessLevel::Blocked
    } else if r.disallow.len() > 0 {
        AccessLevel::Partial
    } else {
        AccessLevel::Allowed
    }
}

/// The access level of one crawler: its own rules when recorded (the name
/// matched exactly, then case-insensitively), else the wildcard rules (which
/// never grant `Allowed` outright), else the default.
pub open spec fn spec_determine_access(
    entries: Seq<(Seq<char>, ARView)>,
    crawler: Seq<char>,
) -> AccessLevel {
    if agent_index(entries, crawler) >= 0 {
        spec_rules_access(entries[agent_index(entries, crawler)].1)
    } else if agent_index_ci(entries, crawler) >= 0 {
        spec_rules_access(entries[agent_index_ci(entries, crawler)].1)
    } else if agent_index(entries, "*"@) >= 0 {
        let w = entries[agent_index(entries, "*"@)].1;
        if w.blocks_all {
            AccessLevel::Blocked
        } else if w.disallow.len() > 0 {
            AccessLevel::Partial
        } else {
            AccessLevel::Default
        }
    } else {
        AccessLevel::Default
    }
}

fn rules_access(r: &AgentRules) -> (a: AccessLevel)
    ensures
        a == spec_rules_access(arview(*r)),
{
    if r.blocks_all {
        AccessLevel::Blocked
    } else if r.disallow.len() > 0 {
        AccessLevel::Partial
    } else {
        AccessLevel::Allowed
    }
}

fn find_ci(map: &AgentRulesMap, key: &str) -> (r: Option<usize>)
    ensures
        match r {
            Some(i) => i < map.entries@.len() && i == agent_index_ci(amview(*map), key@),
            None => agent_index_ci(amview(*map), key@) == -1,
        },
{
    let ghost mv = amview(*map);
    proof {
        assert(mv.skip(0) =~= mv);
    }
    let kl = crate::text::lower_chars(crate::text::to_chars(key).as_slice());
    let mut i: usize = 0;
    while i < map.entries.len()
        invariant
            i <= map.entries@.len(),
            mv == amview(*map),
            mv.len() == map.entries@.len(),
            kl@ == spec_lower(key@),
            agent_index_ci(mv, key@) == if agent_index_ci(mv.skip(i as int), key@) >= 0 {
                i + agent_index_ci(mv.skip(i as int), key@)
            } else {
                -1
            },
        decreases map.entries@.len() - i,
    {
        proof {
            agent_index_ci_props(mv.skip(i as int), key@);
            assert(mv.skip(i as int).first() == mv[i as int]);
        }
        let el = crate::text::lower_chars(
            crate::text::to_chars(map.entries[i].0.as_str()).as_slice(),
        );
        if crate::text::chars_eq(el.as_slice(), kl.as_slice()) {
            return Some(i);
        }
        proof {
            assert(mv.skip(i as int).drop_first() =~= mv.skip(i + 1));
        }
        i = i + 1;
    }
    proof {
        assert(mv.skip(mv.len() as int) =~= Seq::<(Seq<char>, ARView)>::empty());
    }
    None
}

/// The access level recorded for one crawler.
pub fn determine_access(crawler: &str, agent_rules: &AgentRulesMap) -> (a: AccessLevel)
    ensures
        a == spec_determine_access(amview(*agent_rules), crawler@),
{
    let exact = agent_rules.get(crawler);
    match exact {
        Some(rules) => {
            return rules_access(rules);
        },
        None => {},
    }
    let ci = find_ci(agent_rules, crawler);
    match ci {
        Some(i) => {
            proof {
                assert(amview(*agent_rules)[i as int].1 == arview(
                    agent_rules.entries@[i as int].1,
                ));
            }
            return rules_access(&agent_rules.entries[i].1);
        },
        None => {},
    }
    let wildcard = agent_rules.get("*");
    match wildcard {
        Some(rules) => {
            if rules.blocks_all {
                AccessLevel::Blocked
            } else if rules.disallow.len() > 0 {
                AccessLevel::Partial
            } else {
                AccessLevel::Default
            }
        },
        None => AccessLevel::Default,
    }
}

/// The human-readable description of one agent's rules: the agent line, each
/// path rule (or the full block), and the crawl delay, joined with `; `.
pub open spec fn spec_format_rules(agent: Seq<char>, r: ARView) -> Seq<char> {
    let head = "User-agent: "@ + agent;
    let body = if r.blocks_all {
        head + "; Disallow: / (FULL BLOCK)"@
    } else {
        fold_paths(fold_paths(head, r.disallow, "; Disallow: "@), r.allow, "; Allow: "@)
    };
    match r.crawl_delay {
        Some(d) => body + "; Crawl-delay: "@ + crate::text::spec_digits(d as nat) + seq!['s'],
        None => body,
    }
}

/// Append `label + path` for each path.
pub open spec fn fold_paths(acc: Seq<char>, paths: Seq<Seq<char>>, label: Seq<char>) -> Seq<char>
    decreases paths.len(),
{
    if paths.len() == 0 {
        acc
    } else {
        fold_paths(acc + label + paths.first(), paths.drop_first(), label)
    }
}

/// Render one agent's rules.
pub fn format_rules(agent: &str, rules: &AgentRules) -> (r: String)
    ensures
        r@ == spec_format_rules(agent@, arview(*rules)),
{
    let mut out = crate::text::to_chars("User-agent: ");
    crate::text::push_str_chars(&mut out, agent);
    if rules.blocks_all {
        crate::text::push_str_chars(&mut out, "; Disallow: / (FULL BLOCK)");
    } else {
        let ghost dis = arview(*rules).disallow;
        proof {
            assert(dis.skip(0) =~= dis);
            assert(out@ =~= "User-agent: "@ + agent@);
        }
        let mut i: usize = 0;
        while i < rules.disallow.len()
            invariant
                i <= rules.disallow@.len(),
                dis == arview(*rules).disallow,
                dis.len() == rules.disallow@.len(),
                fold_paths(("User-agent: "@ + agent@), dis, "; Disallow: "@) == fold_paths(
                    out@,
                    dis.skip(i as int),
                    "; Disallow: "@,
                ),
            decreases rules.disallow@.len() - i,
        {
            proof {
                assert(dis.skip(i as int).first() == dis[i as int]);
                assert(dis.skip(i as int).drop_first() =~= dis.skip(i + 1));
            }
            crate::text::push_str_chars(&mut out, "; Disallow: ");
            crate::text::push_str_chars(&mut out, rules.disallow[i].as_str());
            i = i + 1;
        }
        proof {
            assert(dis.skip(dis.len() as int) =~= Seq::<Seq<char>>::empty());
        }
        let ghost mid = out@;
        let ghost al = arview(*rules).allow;
        proof {
            assert(al.skip(0) =~= al);
        }
        let mut i: usize = 0;
        while i < rules.allow.len()
            invariant
                i <= rules.allow@.len(),
                al == arview(*rules).allow,
                al.len() == rules.allow@.len(),
                fold_paths(mid, al, "; Allow: "@) == fold_paths(out@, al.skip(i as int), "; Allow: "@),
            decreases rules.allow@.len() - i,
        {
            proof {
                assert(al.skip(i as int).first() == al[i as int]);
                assert(al.skip(i as int).drop_first() =~= al.skip(i + 1));
            }
            crate::text::push_str_chars(&mut out, "; Allow: ");
            crate::text::push_str_chars(&mut out, rules.allow[i].as_str());
            i = i + 1;
        }
        proof {
            assert(al.skip(al.len() as int) =~= Seq::<Seq<char>>::empty());
        }
    }
    match rules.crawl_delay {
        Some(d) => {
            crate::text::push_str_chars(&mut out, "; Crawl-delay: ");
            let digits = crate::text::digits_of(d as u64);
            crate::text::push_all(&mut out, digits.as_slice());
            out.push('s');
        },
        None => {},
    }
    crate::text::from_chars(&out)
}

/// The description of the rules that apply to one crawler: its own entry
/// (matched exactly, then case-insensitively), else the wildcard entry.
pub fn get_applicable_rules(crawler: &str, agent_rules: &AgentRulesMap) -> (r: Option<String>)
    ensures
        ({
            let mv = amview(*agent_rules);
            match r {
                Some(s) => (agent_index(mv, crawler@) >= 0 && s@ == spec_format_rules(
                    crawler@,
                    mv[agent_index(mv, crawler@)].1,
                )) || (agent_index(mv, crawler@) == -1 && agent_index_ci(mv, crawler@) >= 0 && s@
                    == spec_format_rules(
                    mv[agent_index_ci(mv, crawler@)].0,
                    mv[agent_index_ci(mv, crawler@)].1,
                )) || (agent_index(mv, crawler@) == -1 && agent_index_ci(mv, crawler@) == -1
                    && agent_index(mv, "*"@) >= 0 && s@ == spec_format_rules(
                    "* (all bots)"@,
                    mv[agent_index(mv, "*"@)].1,
                )),
                None => agent_index(mv, crawler@) == -1 && agent_index_ci(mv, crawler@) == -1
                    && agent_index(mv, "*"@) == -1,
            }
        }),
{
    let exact = agent_rules.get(crawler);
    match exact {
        Some(rules) => {
            return Some(format_rules(crawler, rules));
        },
        None => {},
    }
    let ci = find_ci(agent_rules, crawler);
    match ci {
        Some(i) => {
            proof {
                assert(amview(*agent_rules)[i as int].1 == arview(
                    agent_rules.entries@[i as int].1,
                ));
                assert(amview(*agent_rules)[i as int].0 == agent_rules.entries@[i as int].0@);
            }
            return Some(
                format_rules(
                    agent_rules.entries[i].0.clone().as_str(),
                    &agent_rules.entries[i].1,
                ),
            );
        },
        None => {},
    }
    let wildcard = agent_rules.get("*");
    match wildcard {
        Some(rules) => Some(format_rules("* (all bots)", rules)),
        None => None,
    }
}

/// The names of the known AI crawlers, in report order.
pub open spec fn spec_crawler_names() -> Seq<Seq<char>> {
    seq![
        "GPTBot"@,
        "ChatGPT-User"@,
        "Google-Extended"@,
        "Bingbot"@,
        "Applebot"@,
        "PerplexityBot"@,
        "YouBot"@,
    ]
}

/// The crawler names whose standing the analysis reports.
pub fn ai_crawler_names() -> (r: Vec<&'static str>)
    ensures
        r@.len() == 7,
        r@.map_values(|s: &str| s@) == spec_crawler_names(),
{
    let mut v: Vec<&'static str> = Vec::new();
    v.push("GPTBot");
    v.push("ChatGPT-User");
    v.push("Google-Extended");
    v.push("Bingbot");
    v.push("Applebot");
    v.push("PerplexityBot");
    v.push("YouBot");
    proof {
        assert(v@.map_values(|s: &str| s@) =~= spec_crawler_names());
    }
    v
}

/// The standing of every known AI crawler under the parsed rules.
pub fn analyze_ai_crawlers(agent_rules: &AgentRulesMap) -> (r: Vec<AiCrawlerStatus>)
    ensures
        r@.len() == 7,
        forall|j: int| 0 <= j < r@.len() ==> (#[trigger] r@[j]).name@ == spec_crawler_names()[j],
        forall|j: int| 0 <= j < r@.len() ==> (#[trigger] r@[j]).access == spec_determine_access(
            amview(*agent_rules),
            r@[j].name@,
        ),
{
    let names = ai_crawler_names();
    let mut statuses: Vec<AiCrawlerStatus> = Vec::new();
    let mut i: usize = 0;
    while i < names.len()
        invariant
            i <= names@.len(),
            names@.len() == 7,
            names@.map_values(|s: &str| s@) == spec_crawler_names(),
            statuses@.len() == i,
            forall|j: int| 0 <= j < i ==> (#[trigger] statuses@[j]).name@
                == spec_crawler_names()[j],
            forall|j: int| 0 <= j < i ==> (#[trigger] statuses@[j]).access
                == spec_determine_access(amview(*agent_rules), statuses@[j].name@),
        decreases names@.len() - i,
    {
        let name = names[i];
        let access = determine_access(name, agent_rules);
        let applicable_rules = get_applicable_rules(name, agent_rules);
        statuses.push(
            AiCrawlerStatus { name: crate::text::from_chars(&crate::text::to_chars(name)), access, applicable_rules },
        );
        i = i + 1;
    }
    statuses
}

/// Whether a path is allowed for an agent: its rules (or the wildcard's)
/// allow it by prefix before any disallow forbids it; no rules allow all.
#[verifier::loop_isolation(false)]
pub fn is_path_allowed(path: &str, agent: &str, analysis: &RobotsTxtAnalysis) -> (r: bool)
    ensures
        ({
            let mv = amview(analysis.agent_rules);
            let idx = if agent_index(mv, agent@) >= 0 {
                agent_index(mv, agent@)
            } else {
                agent_index(mv, "*"@)
            };
            if idx >= 0 {
                let rules = mv[idx].1;
                r == spec_path_allowed(rules, path@)
            } else {
                r == true
            }
        }),
{
    let rules = match analysis.agent_rules.get(agent) {
        Some(rules) => Some(rules),
        None => analysis.agent_rules.get("*"),
    };
    match rules {
        Some(rules) => {
            let pc = crate::text::to_chars(path);
            let ghost al = arview(*rules).allow;
            let mut i: usize = 0;
            while i < rules.allow.len()
                invariant
                    i <= rules.allow@.len(),
                    pc@ == path@,
                    al == arview(*rules).allow,
                    al.len() == rules.allow@.len(),
                    forall|j: int| 0 <= j < i ==> !spec_starts_with(path@, #[trigger] al[j]),
                decreases rules.allow@.len() - i,
            {
                if crate::text::starts_with_chars(
                    pc.as_slice(),
                    crate::text::to_chars(rules.allow[i].as_str()).as_slice(),
                ) {
                    proof {
                        assert(spec_starts_with(path@, al[i as int]));
                        assert(spec_path_allowed(arview(*rules), path@));
                    }
                    return true;
                }
                i = i + 1;
            }
            let ghost dis = arview(*rules).disallow;
            let mut i: usize = 0;
            while i < rules.disallow.len()
                invariant
                    i <= rules.disallow@.len(),
                    pc@ == path@,
                    dis == arview(*rules).disallow,
                    dis.len() == rules.disallow@.len(),
                    forall|j: int| 0 <= j < al.len() ==> !spec_starts_with(
                        path@,
                        #[trigger] al[j],
                    ),
                    forall|j: int| 0 <= j < i ==> #[trigger] dis[j] != "/"@ && !spec_starts_with(
                        path@,
                        dis[j],
                    ),
                decreases rules.disallow@.len() - i,
            {
                if crate::text::chars_eq(
                    crate::text::to_chars(rules.disallow[i].as_str()).as_slice(),
                    crate::text::to_chars("/").as_slice(),
                ) {
                    proof {
                        assert(first_blocking(dis, path@, i as int));
                        assert(!spec_path_allowed(arview(*rules), path@));
                    }
                    return false;
                }
                if crate::text::starts_with_chars(
                    pc.as_slice(),
                    crate::text::to_chars(rules.disallow[i].as_str()).as_slice(),
                ) {
                    proof {
                        assert(first_blocking(dis, path@, i as int));
                        assert(!spec_path_allowed(arview(*rules), path@));
                    }
                    return false;
                }
                i = i + 1;
            }
            proof {
                assert(spec_path_allowed(arview(*rules), path@));
            }
            true
        },
        None => true,
    }
}

/// A path against one agent's rules: an allow prefix wins; otherwise any
/// `/` disallow or a disallow prefix forbids; otherwise allowed. The rules
/// are scanned in order, so the first decisive entry decides.
pub open spec fn spec_path_allowed(rules: ARView, path: Seq<char>) -> bool {
    if exists|j: int| 0 <= j < rules.allow.len() && spec_starts_with(path, #[trigger] rules.allow[j]) {
        true
    } else {
        !(exists|j: int|
            0 <= j < rules.disallow.len() && first_blocking(rules.disallow, path, j))
    }
}

/// Entry `j` blocks the path and no earlier entry decided.
pub open spec fn first_blocking(dis: Seq<Seq<char>>, path: Seq<char>, j: int) -> bool {
    (dis[j] == "/"@ || spec_starts_with(path, dis[j]))
}

} // verus!
