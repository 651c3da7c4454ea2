//! The robots.txt parser: the line scanner, the directive dispatcher, and
//! the full functional specification of what a document parses into.

use vstd::prelude::*;
use crate::chars::{
    str_to_chars, chars_to_string, copy_range, find_char_from, first_index_of, trim_spec, trim_vec,
    split_on_char, split_char_from, views_of, str_eq_str, lemma_skip_skip, lemma_first_index_of,
};
use crate::foreign::{lowercased, parsed_url, parse_absolute_url};
use crate::is_space_char;
use crate::model::clean_params::{CleanParams, SpecCleanParams};
use crate::model::group::{string_views, SpecGroup};
use crate::model::path_pattern::{PathPattern, SpecPathToken, compiled_pattern};
use crate::model::request_rate::RequestRate;
use crate::model::robots_txt::{RobotsTxt, SpecRobotsTxt};
use crate::model::rule::{Rule, SpecRule};
use crate::parser::line::Line;
use crate::parser::numbers::{parsed_usize, parsed_crawl_delay, parse_usize_field,
    parse_crawl_delay_value};
use crate::parser::parse_result::ParseResult;
use crate::parser::warning::{ParseWarning, SpecWarning, warning_views, warning_for};
use crate::parser::warning_reason::SpecWarningReason;

pub mod directive;
pub mod group_builder;

use self::directive::Directive;
use self::group_builder::{
    GroupBuilder, SpecBuilder, builder_wf, builder_handle_ua, builder_touch, builder_set_active,
};

verus! {

/// The document text with one leading byte-order mark removed.
pub open spec fn without_bom(s: Seq<char>) -> Seq<char> {
    if s.len() > 0 && s[0] == '\u{feff}' {
        s.skip(1)
    } else {
        s
    }
}

/// Remove one leading byte-order mark, if present.
pub fn ignore_bom(input: &str) -> (r: &str)
    ensures
        r@ == without_bom(input@),
{
    let n = input.unicode_len();
    if n > 0 && input.get_char(0) == '\u{feff}' {
        let r = input.substring_char(1, n);
        assert(r@ =~= input@.skip(1));
        r
    } else {
        input
    }
}

/// A line with one trailing carriage return removed: documents with CRLF
/// line endings read the same as documents with LF endings.
pub open spec fn strip_cr(s: Seq<char>) -> Seq<char> {
    if s.len() > 0 && s.last() == '\r' {
        s.drop_last()
    } else {
        s
    }
}

/// The lines of a document: split at every newline, with no line for the
/// text after a final trailing newline.  A carriage return counts as part of
/// a line ending only directly before a newline; one on the final,
/// newline-less line stays in the text.
pub open spec fn split_lines(s: Seq<char>) -> Seq<Seq<char>>
    decreases s.len(),
    via split_lines_decreases
{
    if s.len() == 0 {
        Seq::empty()
    } else {
        match first_index_of(s, '\n') {
            None => seq![s],
            Some(i) => seq![strip_cr(s.take(i))] + split_lines(s.skip(i + 1)),
        }
    }
}

#[via_fn]
proof fn split_lines_decreases(s: Seq<char>) {
    lemma_first_index_of(s, '\n');
}

/// Split the suffix of `v` starting at `from` into lines.
fn split_lines_from(v: &Vec<char>, from: usize) -> (r: Vec<Vec<char>>)
    requires
        from <= v@.len(),
    ensures
        views_of(r@) == split_lines(v@.skip(from as int)),
    decreases v@.len() - from,
{
    let n = v.len();
    if from == n {
        let r: Vec<Vec<char>> = Vec::new();
        assert(v@.skip(from as int) =~= Seq::<char>::empty());
        assert(views_of(r@) =~= split_lines(v@.skip(from as int)));
        return r;
    }
    match find_char_from(v, from, '\n') {
        None => {
            let piece = copy_range(v, from, n);
            assert(v@.subrange(from as int, n as int) =~= v@.skip(from as int));
            let r: Vec<Vec<char>> = vec![piece];
            assert(views_of(r@) =~= split_lines(v@.skip(from as int)));
            r
        },
        Some(i) => {
            let ghost s = v@.skip(from as int);
            let end = if i > from && v[i - 1] == '\r' {
                i - 1
            } else {
                i
            };
            let piece = copy_range(v, from, end);
            proof {
                let ghost line = s.take(i - from);
                assert(forall|j: int| 0 <= j < i - from ==> line[j] == v@[j + from]);
                if i > from {
                    assert(line.last() == v@[i as int - 1]);
                }
                assert(v@.subrange(from as int, end as int) =~= strip_cr(s.take(i - from)));
            }
            let mut rest = split_lines_from(v, i + 1);
            let mut r: Vec<Vec<char>> = vec![piece];
            r.append(&mut rest);
            proof {
                assert(v@.skip(i as int + 1) =~= v@.skip(from as int).skip(i - from + 1));
                assert(views_of(r@) =~= split_lines(v@.skip(from as int)));
            }
            r
        },
    }
}

/// Whether a character may appear in a clean-param name.
pub open spec fn is_param_char(c: char) -> bool {
    (('A' as u32) <= (c as u32) && (c as u32) <= ('Z' as u32)) || (('a' as u32) <= (c as u32) && (c
        as u32) <= ('z' as u32)) || (('0' as u32) <= (c as u32) && (c as u32) <= ('9' as u32)) || c
        == '.' || c == '-' || c == '_'
}

/// Whether every character of a clean-param name is acceptable.
pub open spec fn valid_param_name(s: Seq<char>) -> bool {
    forall|i: int| 0 <= i < s.len() ==> is_param_char(s[i])
}

/// The longest whitespace-free prefix of `s`.
pub open spec fn take_word(s: Seq<char>) -> Seq<char>
    decreases s.len(),
{
    if s.len() > 0 && !is_space_char(s[0]) {
        seq![s[0]] + take_word(s.skip(1))
    } else {
        Seq::empty()
    }
}

/// A word is non-empty where the text starts with a non-space, and never
/// longer than the text.
pub proof fn lemma_take_word_len(s: Seq<char>)
    ensures
        take_word(s).len() <= s.len(),
        s.len() > 0 && !is_space_char(s[0]) ==> take_word(s).len() >= 1,
    decreases s.len(),
{
    if s.len() > 0 && !is_space_char(s[0]) {
        lemma_take_word_len(s.skip(1));
    }
}

/// The whitespace-separated words of `s`.
pub open spec fn split_ws(s: Seq<char>) -> Seq<Seq<char>>
    decreases s.len(),
    via split_ws_decreases
{
    if s.len() == 0 {
        Seq::empty()
    } else if is_space_char(s[0]) {
        split_ws(s.skip(1))
    } else {
        seq![take_word(s)] + split_ws(s.skip(take_word(s).len() as int))
    }
}

#[via_fn]
proof fn split_ws_decreases(s: Seq<char>) {
    lemma_take_word_len(s);
}

/// The word at the head of `s` runs to the first whitespace character.
proof fn lemma_take_word_at(s: Seq<char>, j: int)
    requires
        0 <= j <= s.len(),
        forall|m: int| 0 <= m < j ==> !is_space_char(s[m]),
        j < s.len() ==> is_space_char(s[j]),
    ensures
        take_word(s) == s.take(j),
    decreases j,
{
    if j == 0 {
        assert(take_word(s) =~= s.take(0));
    } else {
        assert forall|m: int| 0 <= m < j - 1 implies !is_space_char(s.skip(1)[m]) by {
            assert(s.skip(1)[m] == s[m + 1]);
        }
        if j - 1 < s.skip(1).len() {
            assert(s.skip(1)[j - 1] == s[j]);
        }
        lemma_take_word_at(s.skip(1), j - 1);
        assert(take_word(s) =~= s.take(j)) by {
            assert(take_word(s) == seq![s[0]] + s.skip(1).take(j - 1));
        }
    }
}

/// Split the suffix of `v` starting at `from` into whitespace-separated words.
fn split_ws_from(v: &Vec<char>, from: usize) -> (r: Vec<Vec<char>>)
    requires
        from <= v@.len(),
    ensures
        views_of(r@) == split_ws(v@.skip(from as int)),
    decreases v@.len() - from,
{
    let n = v.len();
    if from == n {
        let r: Vec<Vec<char>> = Vec::new();
        assert(v@.skip(from as int) =~= Seq::<char>::empty());
        assert(views_of(r@) =~= split_ws(v@.skip(from as int)));
        return r;
    }
    if crate::chars::is_space(v[from]) {
        let r = split_ws_from(v, from + 1);
        proof {
            assert(v@.skip(from as int)[0] == v@[from as int]);
            assert(v@.skip(from as int).skip(1) =~= v@.skip(from as int + 1));
        }
        return r;
    }
    // Scan to the end of the word.
    let mut j: usize = from;
    while j < n && !crate::chars::is_space(v[j])
        invariant
            from <= j <= n,
            n == v@.len(),
            forall|m: int| from <= m < j ==> !is_space_char(v@[m]),
        decreases n - j,
    {
        j = j + 1;
    }
    let word = copy_range(v, from, j);
    proof {
        let s = v@.skip(from as int);
        assert(forall|m: int| 0 <= m < j - from ==> s[m] == v@[m + from]);
        if j < n {
            assert(s[j - from] == v@[j as int]);
        }
        lemma_take_word_at(s, j - from);
        assert(word@ =~= s.take(j - from));
    }
    let mut rest = split_ws_from(v, j);
    let mut r: Vec<Vec<char>> = vec![word];
    r.append(&mut rest);
    proof {
        let s = v@.skip(from as int);
        assert(v@.skip(j as int) =~= s.skip(j - from));
        assert(take_word(s).len() == j - from);
        assert(views_of(r@) =~= split_ws(s));
    }
    r
}

/// The state the parser carries from line to line: the document parts filled
/// so far, the group accumulator, and the warnings.
#[verifier::ext_equal]
pub struct SpecParserState {
    pub doc: SpecRobotsTxt,
    pub builder: SpecBuilder,
    pub warnings: Seq<SpecWarning>,
}

/// The state with one more warning recorded.
pub open spec fn with_warning(
    st: SpecParserState,
    no: int,
    raw: Seq<char>,
    reason: SpecWarningReason,
) -> SpecParserState {
    SpecParserState {
        warnings: st.warnings.push(SpecWarning { line_no: no, line: raw, reason }),
        ..st
    }
}

/// What a line contributes before dispatch: nothing, a warning, or a
/// directive key/value pair.
pub enum LineParse {
    Skip,
    Warn(SpecWarningReason),
    Dir(Seq<char>, Seq<char>),
}

/// A line with its comment removed and its whitespace trimmed.
pub open spec fn clean_line(text: Seq<char>) -> Seq<char> {
    match first_index_of(text, '#') {
        Some(i) => trim_spec(text.take(i)),
        None => trim_spec(text),
    }
}

/// Extract the directive of one line: a cleaned line that is empty is
/// dropped silently; one with no `:` is rejected; one whose key is empty is
/// rejected; otherwise the trimmed key and value are handed on.
pub open spec fn line_directive(text: Seq<char>) -> LineParse {
    let kv = clean_line(text);
    if kv.len() == 0 {
        LineParse::Skip
    } else {
        match first_index_of(kv, ':') {
            None => LineParse::Warn(SpecWarningReason::InvalidDirectiveFormat),
            Some(i) => {
                let key = trim_spec(kv.take(i));
                if key.len() == 0 {
                    LineParse::Warn(SpecWarningReason::DirectiveKeyIsEmpty)
                } else {
                    LineParse::Dir(key, trim_spec(kv.skip(i + 1)))
                }
            },
        }
    }
}

/// Whether an `Allow`/`Disallow` value is an acceptable path: it must start
/// with `*` or `/`.
pub open spec fn rule_value_ok(value: Seq<char>) -> bool {
    value.len() > 0 && (value[0] == '*' || value[0] == '/')
}

/// The builder with a rule attached to its active group.
pub open spec fn builder_push_rule(b: SpecBuilder, r: SpecRule) -> SpecBuilder {
    builder_set_active(b, SpecGroup { rules: b.groups.last().rules.push(r), ..b.groups.last() })
}

/// What a `User-agent` directive does to the state.
pub open spec fn step_user_agent(
    st: SpecParserState,
    no: int,
    raw: Seq<char>,
    value: Seq<char>,
) -> SpecParserState {
    if value.len() == 0 {
        with_warning(st, no, raw, SpecWarningReason::UserAgentCannotBeEmpty)
    } else {
        SpecParserState { builder: builder_handle_ua(st.builder, value), ..st }
    }
}

/// What an `Allow` directive does to the state: an empty value is a no-op; a
/// well-formed path becomes an allowing rule of the active group.
pub open spec fn step_allow(
    st: SpecParserState,
    no: int,
    raw: Seq<char>,
    value: Seq<char>,
) -> SpecParserState {
    let st1 = SpecParserState { builder: builder_touch(st.builder), ..st };
    if !st.builder.has_active {
        with_warning(st1, no, raw, SpecWarningReason::DirectiveWithoutUserAgent)
    } else if value.len() == 0 {
        st1
    } else if rule_value_ok(value) {
        SpecParserState {
            builder: builder_push_rule(
                st1.builder,
                SpecRule { pattern: compiled_pattern(value), allowance: true },
            ),
            ..st1
        }
    } else {
        with_warning(st1, no, raw, SpecWarningReason::WrongPathFormat)
    }
}

/// What a `Disallow` directive does to the state: an empty value becomes an
/// allow-everything rule; a well-formed path becomes a disallowing rule.
pub open spec fn step_disallow(
    st: SpecParserState,
    no: int,
    raw: Seq<char>,
    value: Seq<char>,
) -> SpecParserState {
    let st1 = SpecParserState { builder: builder_touch(st.builder), ..st };
    if !st.builder.has_active {
        with_warning(st1, no, raw, SpecWarningReason::DirectiveWithoutUserAgent)
    } else if value.len() == 0 {
        SpecParserState {
            builder: builder_push_rule(
                st1.builder,
                SpecRule { pattern: seq![SpecPathToken::AnyString], allowance: true },
            ),
            ..st1
        }
    } else if rule_value_ok(value) {
        SpecParserState {
            builder: builder_push_rule(
                st1.builder,
                SpecRule { pattern: compiled_pattern(value), allowance: false },
            ),
            ..st1
        }
    } else {
        with_warning(st1, no, raw, SpecWarningReason::WrongPathFormat)
    }
}

/// What a `Crawl-delay` directive does to the state.
pub open spec fn step_crawl_delay(
    st: SpecParserState,
    no: int,
    raw: Seq<char>,
    value: Seq<char>,
) -> SpecParserState {
    let st1 = SpecParserState { builder: builder_touch(st.builder), ..st };
    if !st.builder.has_active {
        with_warning(st1, no, raw, SpecWarningReason::DirectiveWithoutUserAgent)
    } else {
        match parsed_crawl_delay(value) {
            Some(d) => SpecParserState {
                builder: builder_set_active(
                    st1.builder,
                    SpecGroup { crawl_delay: Some(d), ..st1.builder.groups.last() },
                ),
                ..st1
            },
            None => with_warning(st1, no, raw, SpecWarningReason::ParseCrawlDelayError),
        }
    }
}

/// What a `Request-rate` directive does to the state: the value must be two
/// `/`-separated non-negative integers.
pub open spec fn step_request_rate(
    st: SpecParserState,
    no: int,
    raw: Seq<char>,
    value: Seq<char>,
) -> SpecParserState {
    let st1 = SpecParserState { builder: builder_touch(st.builder), ..st };
    if !st.builder.has_active {
        with_warning(st1, no, raw, SpecWarningReason::DirectiveWithoutUserAgent)
    } else {
        let pieces = split_on_char(value, '/');
        if pieces.len() != 2 {
            with_warning(st1, no, raw, SpecWarningReason::WrongRequestRateFormat)
        } else {
            match (parsed_usize(pieces[0]), parsed_usize(pieces[1])) {
                (Some(requests), Some(seconds)) => SpecParserState {
                    builder: builder_set_active(
                        st1.builder,
                        SpecGroup {
                            req_rate: Some(RequestRate { requests, seconds }),
                            ..st1.builder.groups.last()
                        },
                    ),
                    ..st1
                },
                _ => with_warning(st1, no, raw, SpecWarningReason::ParseRequestRate),
            }
        }
    }
}

/// What a `Sitemap` directive does to the state: a value that parses as an
/// absolute URL is recorded in its normalized serialization.  Sitemaps are
/// document-scoped: they neither need nor touch the active group.
pub open spec fn step_sitemap(
    st: SpecParserState,
    no: int,
    raw: Seq<char>,
    value: Seq<char>,
) -> SpecParserState {
    match parsed_url(value) {
        Some(u) => SpecParserState {
            doc: SpecRobotsTxt { sitemaps: st.doc.sitemaps.push(u), ..st.doc },
            ..st
        },
        None => with_warning(st, no, raw, SpecWarningReason::ParseUrl),
    }
}

/// The `&`-separated names of a clean-param list that are non-empty and
/// acceptable.
pub open spec fn valid_params_of(names: Seq<Seq<char>>) -> Seq<Seq<char>>
    decreases names.len(),
{
    if names.len() == 0 {
        Seq::empty()
    } else {
        let rest = valid_params_of(names.skip(1));
        if names[0].len() > 0 && valid_param_name(names[0]) {
            seq![names[0]] + rest
        } else {
            rest
        }
    }
}

/// The non-empty names rejected for their characters.
pub open spec fn invalid_params_of(names: Seq<Seq<char>>) -> Seq<Seq<char>>
    decreases names.len(),
{
    if names.len() == 0 {
        Seq::empty()
    } else {
        let rest = invalid_params_of(names.skip(1));
        if names[0].len() > 0 && !valid_param_name(names[0]) {
            seq![names[0]] + rest
        } else {
            rest
        }
    }
}

/// What a `Clean-param` directive does to the state: `pattern params` or
/// just `params`; names with unacceptable characters are reported and
/// dropped, while the remaining names are still recorded.  Clean-param
/// entries are document-scoped.
pub open spec fn step_clean_param(
    st: SpecParserState,
    no: int,
    raw: Seq<char>,
    value: Seq<char>,
) -> SpecParserState {
    let parts = split_ws(value);
    if parts.len() == 0 || parts.len() >= 3 {
        with_warning(st, no, raw, SpecWarningReason::WrongCleanParamFormat)
    } else {
        let pattern = if parts.len() == 2 {
            compiled_pattern(parts[0])
        } else {
            seq![SpecPathToken::AnyString]
        };
        let names = split_on_char(if parts.len() == 2 {
            parts[1]
        } else {
            parts[0]
        }, '&');
        let valid = valid_params_of(names);
        let invalid = invalid_params_of(names);
        let st1 = if invalid.len() > 0 {
            with_warning(st, no, raw, SpecWarningReason::IgnoredCleanParams(invalid))
        } else {
            st
        };
        SpecParserState {
            doc: SpecRobotsTxt {
                clean_params: st1.doc.clean_params.push(
                    SpecCleanParams { pattern, params: valid },
                ),
                ..st1.doc
            },
            ..st1
        }
    }
}

/// Dispatch one recognized or unrecognized directive.
pub open spec fn step_directive(
    st: SpecParserState,
    no: int,
    raw: Seq<char>,
    key: Seq<char>,
    value: Seq<char>,
) -> SpecParserState {
    if key == "user-agent"@ {
        step_user_agent(st, no, raw, value)
    } else if key == "allow"@ {
        step_allow(st, no, raw, value)
    } else if key == "disallow"@ {
        step_disallow(st, no, raw, value)
    } else if key == "crawl-delay"@ {
        step_crawl_delay(st, no, raw, value)
    } else if key == "request-rate"@ {
        step_request_rate(st, no, raw, value)
    } else if key == "sitemap"@ {
        step_sitemap(st, no, raw, value)
    } else if key == "clean-param"@ {
        step_clean_param(st, no, raw, value)
    } else {
        with_warning(st, no, raw, SpecWarningReason::UnsupportedDirectiveKey(key))
    }
}

/// What one raw line does to the state.
pub open spec fn step_line(st: SpecParserState, no: int, raw: Seq<char>) -> SpecParserState {
    match line_directive(raw) {
        LineParse::Skip => st,
        LineParse::Warn(reason) => with_warning(st, no, raw, reason),
        LineParse::Dir(key, value) => step_directive(st, no, raw, lowercased(key), value),
    }
}

/// Fold the lines over the state, numbering them from `next_no`.
pub open spec fn parse_lines(
    st: SpecParserState,
    lines: Seq<Seq<char>>,
    next_no: int,
) -> SpecParserState
    decreases lines.len(),
{
    if lines.len() == 0 {
        st
    } else {
        parse_lines(step_line(st, next_no, lines[0]), lines.skip(1), next_no + 1)
    }
}

/// The state a parse starts from.
pub open spec fn initial_state(origin: Seq<char>) -> SpecParserState {
    SpecParserState {
        doc: SpecRobotsTxt {
            origin,
            groups: Seq::empty(),
            sitemaps: Seq::empty(),
            clean_params: Seq::empty(),
        },
        builder: SpecBuilder { groups: Seq::empty(), has_active: false, awaiting_more: false },
        warnings: Seq::empty(),
    }
}

/// The finished document: every opened group is appended, in opening order.
pub open spec fn final_document(st: SpecParserState) -> SpecRobotsTxt {
    SpecRobotsTxt { groups: st.doc.groups + st.builder.groups, ..st.doc }
}

/// The full meaning of a parse: strip the byte-order mark, split into lines,
/// fold every line over the initial state, and close the open group.
pub open spec fn parse_spec(origin: Seq<char>, input: Seq<char>) -> SpecParserState {
    parse_lines(initial_state(origin), split_lines(without_bom(input)), 1)
}

/// Parse the text of the robots.txt file fetched from the given origin
/// serialization.  Parsing never fails: malformed directives become warnings
/// and are dropped, and everything else is kept.
pub fn parse(origin: String, input: &str) -> (r: ParseResult<RobotsTxt>)
    ensures
        r.result@ == final_document(parse_spec(origin@, input@)),
        warning_views(r.warnings@) == parse_spec(origin@, input@).warnings,
{
    let parser = Parser::new(origin);
    parser.parse(input)
}

/// The parser: the document being filled, the group accumulator, and the
/// warnings gathered so far.
pub struct Parser {
    pub result: RobotsTxt,
    pub group_builder: GroupBuilder,
    pub warnings: Vec<ParseWarning>,
}

impl View for Parser {
    type V = SpecParserState;

    open spec fn view(&self) -> SpecParserState {
        SpecParserState {
            doc: self.result@,
            builder: self.group_builder@,
            warnings: warning_views(self.warnings@),
        }
    }
}

impl Parser {
    /// A parser for a document scoped to the given origin serialization.
    pub fn new(origin: String) -> (r: Parser)
        ensures
            r@ == initial_state(origin@),
    {
        let r = Parser {
            result: RobotsTxt::new(origin),
            group_builder: GroupBuilder::new(),
            warnings: Vec::new(),
        };
        assert(r@ =~= initial_state(r.result@.origin));
        r
    }

    /// Run the parser over a whole document.
    pub fn parse(self, input: &str) -> (r: ParseResult<RobotsTxt>)
        requires
            builder_wf(self@.builder),
        ensures
            r.result@ == final_document(parse_lines(self@, split_lines(without_bom(input@)), 1)),
            warning_views(r.warnings@) == parse_lines(
                self@,
                split_lines(without_bom(input@)),
                1,
            ).warnings,
    {
        let mut this = self;
        let ghost st0 = this@;
        let stripped = ignore_bom(input);
        let chars = str_to_chars(stripped);
        assert(chars@.skip(0) =~= chars@);
        let lines = split_lines_from(&chars, 0);
        let ghost lviews = views_of(lines@);
        let ghost target = parse_lines(st0, lviews, 1);
        let n = lines.len();
        let mut i: usize = 0;
        assert(lviews.skip(0) =~= lviews);
        while i < n
            invariant
                i <= n,
                n == lines@.len(),
                lviews == views_of(lines@),
                builder_wf(this@.builder),
                target == parse_lines(this@, lviews.skip(i as int), i + 1),
            decreases n - i,
        {
            let text = chars_to_string(&lines[i]);
            let line = Line::new(text, i + 1);
            assert(line@.text == lviews[i as int]);
            this.process_line(&line);
            proof {
                lemma_skip_skip(lviews, i as int, 1);
                assert(lviews.skip(i as int)[0] == lviews[i as int]);
            }
            i = i + 1;
        }
        assert(lviews.skip(i as int) =~= Seq::<Seq<char>>::empty());
        assert(this@ == target);
        let Parser { mut result, group_builder, warnings } = this;
        group_builder.fill_entries(&mut result);
        assert(result@ =~~= final_document(target));
        ParseResult::new_with_warnings(result, warnings)
    }

    /// Record one warning.
    fn push_warning(&mut self, w: ParseWarning)
        ensures
            final(self)@ == (SpecParserState {
                warnings: old(self)@.warnings.push(w@),
                ..old(self)@
            }),
    {
        let ghost wv = w@;
        self.warnings.push(w);
        proof {
            assert(warning_views(self.warnings@) =~= warning_views(old(self).warnings@).push(wv));
            assert(self@ =~~= (SpecParserState {
                warnings: old(self)@.warnings.push(wv),
                ..old(self)@
            }));
        }
    }

    /// Process one raw line.
    fn process_line(&mut self, line: &Line)
        requires
            builder_wf(old(self)@.builder),
        ensures
            final(self)@ == step_line(old(self)@, line@.number, line@.text),
            builder_wf(final(self)@.builder),
    {
        match Self::parse_line(line) {
            Ok(Some(directive)) => {
                self.process_line_value(line, &directive);
            },
            Ok(None) => {},
            Err(warning) => {
                self.push_warning(warning);
                assert(self@ =~~= step_line(old(self)@, line@.number, line@.text));
            },
        }
    }

    /// Split one line into a directive, a warning, or nothing.
    fn parse_line(line: &Line) -> (r: Result<Option<Directive>, ParseWarning>)
        ensures
            ({
                let lp = line_directive(line@.text);
                match r {
                    Ok(None) => lp is Skip,
                    Ok(Some(d)) => lp == LineParse::Dir(d@.key, d@.value),
                    Err(w) => match lp {
                        LineParse::Warn(reason) => w@ == warning_for(line@, reason),
                        _ => false,
                    },
                }
            }),
    {
        let raw = str_to_chars(line.get_line_text().as_str());
        assert(raw@.skip(0) =~= raw@);
        let cut = match find_char_from(&raw, 0, '#') {
            Some(i) => i,
            None => raw.len(),
        };
        let kv_part = copy_range(&raw, 0, cut);
        proof {
            match first_index_of(raw@, '#') {
                Some(i) => {
                    assert(kv_part@ =~= raw@.take(i));
                },
                None => {
                    assert(kv_part@ =~= raw@);
                },
            }
        }
        let kv = trim_vec(&kv_part);
        assert(kv@ == clean_line(line@.text));
        if kv.len() == 0 {
            return Ok(None);
        }
        assert(kv@.skip(0) =~= kv@);
        match find_char_from(&kv, 0, ':') {
            None => Err(ParseWarning::invalid_directive_format(line)),
            Some(i) => {
                let key_part = copy_range(&kv, 0, i);
                assert(key_part@ =~= kv@.take(i as int));
                let key = trim_vec(&key_part);
                if key.len() == 0 {
                    Err(ParseWarning::directive_key_is_empty(line))
                } else {
                    let value_part = copy_range(&kv, i + 1, kv.len());
                    assert(value_part@ =~= kv@.skip(i as int + 1));
                    let value = trim_vec(&value_part);
                    Ok(Some(Directive::new(chars_to_string(&key), chars_to_string(&value))))
                }
            },
        }
    }

    /// Dispatch one extracted directive on its lowercased key.
    fn process_line_value(&mut self, line: &Line, directive: &Directive)
        requires
            builder_wf(old(self)@.builder),
        ensures
            final(self)@ == step_directive(
                old(self)@,
                line@.number,
                line@.text,
                lowercased(directive@.key),
                directive@.value,
            ),
            builder_wf(final(self)@.builder),
    {
        let key = directive.get_key_lowercase();
        if str_eq_str(key.as_str(), "user-agent") {
            self.process_directive_user_agent(line, directive);
        } else if str_eq_str(key.as_str(), "allow") {
            self.process_directive_allow(line, directive);
        } else if str_eq_str(key.as_str(), "disallow") {
            self.process_directive_disallow(line, directive);
        } else if str_eq_str(key.as_str(), "crawl-delay") {
            self.process_directive_crawl_delay(line, directive);
        } else if str_eq_str(key.as_str(), "request-rate") {
            self.process_directive_request_rate(line, directive);
        } else if str_eq_str(key.as_str(), "sitemap") {
            self.process_directive_sitemap(line, directive);
        } else if str_eq_str(key.as_str(), "clean-param") {
            self.process_directive_clean_param(line, directive);
        } else {
            let w = ParseWarning::unsupported_directive_key(line, key);
            self.push_warning(w);
            assert(self@ =~~= step_directive(
                old(self)@,
                line@.number,
                line@.text,
                lowercased(directive@.key),
                directive@.value,
            ));
        }
    }

    /// A `User-agent` line: open or extend a group.
    fn process_directive_user_agent(&mut self, line: &Line, directive: &Directive)
        requires
            builder_wf(old(self)@.builder),
        ensures
            final(self)@ == step_user_agent(
                old(self)@,
                line@.number,
                line@.text,
                directive@.value,
            ),
            builder_wf(final(self)@.builder),
    {
        let value = directive.get_value();
        if value.as_str().is_empty() {
            let w = ParseWarning::user_agent_cannot_be_empty(line);
            self.push_warning(w);
            assert(self@ =~~= step_user_agent(old(self)@, line@.number, line@.text,
                directive@.value));
        } else {
            self.group_builder.handle_user_agent(value.as_str());
            assert(self@ =~~= step_user_agent(old(self)@, line@.number, line@.text,
                directive@.value));
        }
    }

    /// An `Allow` line.
    fn process_directive_allow(&mut self, line: &Line, directive: &Directive)
        requires
            builder_wf(old(self)@.builder),
        ensures
            final(self)@ == step_allow(old(self)@, line@.number, line@.text, directive@.value),
            builder_wf(final(self)@.builder),
    {
        let has_group = self.group_builder.get_mut_active_group();
        if !has_group {
            let w = ParseWarning::directive_without_user_agent(line);
            self.push_warning(w);
            assert(self@ =~~= step_allow(old(self)@, line@.number, line@.text, directive@.value));
            return ;
        }
        let value = directive.get_value();
        if value.as_str().is_empty() {
            assert(self@ =~~= step_allow(old(self)@, line@.number, line@.text, directive@.value));
            return ;
        }
        let c0 = value.as_str().get_char(0);
        if c0 == '*' || c0 == '/' {
            let pattern = PathPattern::new(value.as_str());
            self.group_builder.push_rule_active(Rule::new(pattern, true));
            assert(self@ =~~= step_allow(old(self)@, line@.number, line@.text, directive@.value));
        } else {
            let w = ParseWarning::wrong_path_format(line);
            self.push_warning(w);
            assert(self@ =~~= step_allow(old(self)@, line@.number, line@.text, directive@.value));
        }
    }

    /// A `Disallow` line.
    fn process_directive_disallow(&mut self, line: &Line, directive: &Directive)
        requires
            builder_wf(old(self)@.builder),
        ensures
            final(self)@ == step_disallow(old(self)@, line@.number, line@.text, directive@.value),
            builder_wf(final(self)@.builder),
    {
        let has_group = self.group_builder.get_mut_active_group();
        if !has_group {
            let w = ParseWarning::directive_without_user_agent(line);
            self.push_warning(w);
            assert(self@ =~~= step_disallow(old(self)@, line@.number, line@.text,
                directive@.value));
            return ;
        }
        let value = directive.get_value();
        if value.as_str().is_empty() {
            // An empty `Disallow` means: nothing is restricted.
            self.group_builder.push_rule_active(Rule::new(PathPattern::all(), true));
            assert(self@ =~~= step_disallow(old(self)@, line@.number, line@.text,
                directive@.value));
            return ;
        }
        let c0 = value.as_str().get_char(0);
        if c0 == '*' || c0 == '/' {
            let pattern = PathPattern::new(value.as_str());
            self.group_builder.push_rule_active(Rule::new(pattern, false));
            assert(self@ =~~= step_disallow(old(self)@, line@.number, line@.text,
                directive@.value));
        } else {
            let w = ParseWarning::wrong_path_format(line);
            self.push_warning(w);
            assert(self@ =~~= step_disallow(old(self)@, line@.number, line@.text,
                directive@.value));
        }
    }

    /// A `Crawl-delay` line.
    fn process_directive_crawl_delay(&mut self, line: &Line, directive: &Directive)
        requires
            builder_wf(old(self)@.builder),
        ensures
            final(self)@ == step_crawl_delay(
                old(self)@,
                line@.number,
                line@.text,
                directive@.value,
            ),
            builder_wf(final(self)@.builder),
    {
        let has_group = self.group_builder.get_mut_active_group();
        if !has_group {
            let w = ParseWarning::directive_without_user_agent(line);
            self.push_warning(w);
            assert(self@ =~~= step_crawl_delay(old(self)@, line@.number, line@.text,
                directive@.value));
            return ;
        }
        let vchars = str_to_chars(directive.get_value().as_str());
        match parse_crawl_delay_value(&vchars) {
            Some(delay) => {
                self.group_builder.set_crawl_delay_active(delay);
                assert(self@ =~~= step_crawl_delay(old(self)@, line@.number, line@.text,
                    directive@.value));
            },
            None => {
                let w = ParseWarning::parse_crawl_delay_error(line);
                self.push_warning(w);
                assert(self@ =~~= step_crawl_delay(old(self)@, line@.number, line@.text,
                    directive@.value));
            },
        }
    }

    /// A `Request-rate` line.
    fn process_directive_request_rate(&mut self, line: &Line, directive: &Directive)
        requires
            builder_wf(old(self)@.builder),
        ensures
            final(self)@ == step_request_rate(
                old(self)@,
                line@.number,
                line@.text,
                directive@.value,
            ),
            builder_wf(final(self)@.builder),
    {
        let has_group = self.group_builder.get_mut_active_group();
        if !has_group {
            let w = ParseWarning::directive_without_user_agent(line);
            self.push_warning(w);
            assert(self@ =~~= step_request_rate(old(self)@, line@.number, line@.text,
                directive@.value));
            return ;
        }
        let vchars = str_to_chars(directive.get_value().as_str());
        assert(vchars@.skip(0) =~= vchars@);
        let numbers = split_char_from(&vchars, 0, '/');
        let ghost pieces = split_on_char(directive@.value, '/');
        assert(views_of(numbers@) == pieces);
        if numbers.len() != 2 {
            let w = ParseWarning::wrong_request_rate_format(line);
            self.push_warning(w);
            assert(self@ =~~= step_request_rate(old(self)@, line@.number, line@.text,
                directive@.value));
            return ;
        }
        assert(numbers@[0]@ == pieces[0] && numbers@[1]@ == pieces[1]);
        let requests_parsed = parse_usize_field(&numbers[0]);
        let seconds_parsed = parse_usize_field(&numbers[1]);
        match requests_parsed {
            Some(requests) => match seconds_parsed {
                Some(seconds) => {
                    self.group_builder.set_req_rate_active(RequestRate { requests, seconds });
                    assert(self@ =~~= step_request_rate(old(self)@, line@.number, line@.text,
                        directive@.value));
                },
                None => {
                    let w = ParseWarning::parse_request_rate(line);
                    self.push_warning(w);
                    assert(self@ =~~= step_request_rate(old(self)@, line@.number, line@.text,
                        directive@.value));
                },
            },
            None => {
                let w = ParseWarning::parse_request_rate(line);
                self.push_warning(w);
                assert(self@ =~~= step_request_rate(old(self)@, line@.number, line@.text,
                    directive@.value));
            },
        }
    }

    /// A `Sitemap` line.
    fn process_directive_sitemap(&mut self, line: &Line, directive: &Directive)
        requires
            builder_wf(old(self)@.builder),
        ensures
            final(self)@ == step_sitemap(old(self)@, line@.number, line@.text, directive@.value),
            builder_wf(final(self)@.builder),
    {
        match parse_absolute_url(directive.get_value().as_str()) {
            Some(sitemap_url) => {
                self.result.add_sitemap(sitemap_url);
                assert(self@ =~~= step_sitemap(old(self)@, line@.number, line@.text,
                    directive@.value));
            },
            None => {
                let w = ParseWarning::parse_url(line);
                self.push_warning(w);
                assert(self@ =~~= step_sitemap(old(self)@, line@.number, line@.text,
                    directive@.value));
            },
        }
    }

    /// Whether every character of a clean-param name is acceptable.
    fn is_valid_clean_param(clean_param: &Vec<char>) -> (r: bool)
        ensures
            r == valid_param_name(clean_param@),
    {
        let mut i: usize = 0;
        while i < clean_param.len()
            invariant
                i <= clean_param@.len(),
                forall|j: int| 0 <= j < i ==> is_param_char(clean_param@[j]),
            decreases clean_param@.len() - i,
        {
            let c = clean_param[i];
            let cu = c as u32;
            let ok = (('A' as u32) <= cu && cu <= ('Z' as u32)) || (('a' as u32) <= cu && cu <= (
            'z' as u32)) || (('0' as u32) <= cu && cu <= ('9' as u32)) || c == '.' || c == '-' || c
                == '_';
            if !ok {
                assert(!is_param_char(clean_param@[i as int]));
                return false;
            }
            i = i + 1;
        }
        true
    }

    /// Split a clean-param name list on `&` and sort the names into the
    /// acceptable and the rejected.
    fn parse_clean_params(src: &Vec<char>) -> (r: (Vec<String>, Vec<String>))
        ensures
            string_views(r.0@) == valid_params_of(split_on_char(src@, '&')),
            string_views(r.1@) == invalid_params_of(split_on_char(src@, '&')),
    {
        assert(src@.skip(0) =~= src@);
        let names = split_char_from(src, 0, '&');
        let ghost nviews = views_of(names@);
        let mut valid: Vec<String> = Vec::new();
        let mut invalid: Vec<String> = Vec::new();
        let n = names.len();
        let mut i: usize = 0;
        assert(nviews.skip(0) =~= nviews);
        assert(string_views(valid@) =~= Seq::<Seq<char>>::empty());
        assert(string_views(invalid@) =~= Seq::<Seq<char>>::empty());
        while i < n
            invariant
                i <= n,
                n == names@.len(),
                nviews == views_of(names@),
                string_views(valid@) + valid_params_of(nviews.skip(i as int)) == valid_params_of(
                    nviews,
                ),
                string_views(invalid@) + invalid_params_of(nviews.skip(i as int))
                    == invalid_params_of(nviews),
            decreases n - i,
        {
            proof {
                lemma_skip_skip(nviews, i as int, 1);
                assert(nviews.skip(i as int)[0] == nviews[i as int]);
                assert(nviews[i as int] == names@[i as int]@);
            }
            let name = &names[i];
            if name.len() > 0 {
                if Self::is_valid_clean_param(name) {
                    let ghost before = string_views(valid@);
                    valid.push(chars_to_string(name));
                    proof {
                        assert(string_views(valid@) =~= before.push(nviews[i as int]));
                        assert(before.push(nviews[i as int]) + valid_params_of(
                            nviews.skip(i as int + 1),
                        ) =~= before + (seq![nviews[i as int]] + valid_params_of(
                            nviews.skip(i as int + 1),
                        )));
                    }
                } else {
                    let ghost before = string_views(invalid@);
                    invalid.push(chars_to_string(name));
                    proof {
                        assert(string_views(invalid@) =~= before.push(nviews[i as int]));
                        assert(before.push(nviews[i as int]) + invalid_params_of(
                            nviews.skip(i as int + 1),
                        ) =~= before + (seq![nviews[i as int]] + invalid_params_of(
                            nviews.skip(i as int + 1),
                        )));
                    }
                }
            }
            i = i + 1;
        }
        proof {
            assert(nviews.skip(i as int) =~= Seq::<Seq<char>>::empty());
            assert(string_views(valid@) + Seq::<Seq<char>>::empty() =~= string_views(valid@));
            assert(string_views(invalid@) + Seq::<Seq<char>>::empty() =~= string_views(invalid@));
        }
        (valid, invalid)
    }

    /// A `Clean-param` line.
    fn process_directive_clean_param(&mut self, line: &Line, directive: &Directive)
        requires
            builder_wf(old(self)@.builder),
        ensures
            final(self)@ == step_clean_param(
                old(self)@,
                line@.number,
                line@.text,
                directive@.value,
            ),
            builder_wf(final(self)@.builder),
    {
        let vchars = str_to_chars(directive.get_value().as_str());
        assert(vchars@.skip(0) =~= vchars@);
        let parts = split_ws_from(&vchars, 0);
        let ghost pviews = split_ws(directive@.value);
        assert(views_of(parts@) == pviews);
        if parts.len() == 0 || parts.len() >= 3 {
            let w = ParseWarning::wrong_clean_param_format(line);
            self.push_warning(w);
            assert(self@ =~~= step_clean_param(old(self)@, line@.number, line@.text,
                directive@.value));
            return ;
        }
        let two = parts.len() == 2;
        let pattern = if two {
            assert(parts@[0]@ == pviews[0]);
            let pattern_text = chars_to_string(&parts[0]);
            PathPattern::new(pattern_text.as_str())
        } else {
            PathPattern::all()
        };
        let src = if two {
            assert(parts@[1]@ == pviews[1]);
            &parts[1]
        } else {
            assert(parts@[0]@ == pviews[0]);
            &parts[0]
        };
        let (valid, invalid) = Self::parse_clean_params(src);
        if invalid.len() > 0 {
            let w = ParseWarning::ignored_clean_params(line, invalid);
            self.push_warning(w);
        }
        self.result.add_clean_params(CleanParams::new(pattern, valid));
        assert(self@ =~~= step_clean_param(old(self)@, line@.number, line@.text,
            directive@.value));
    }
}

} // verus!
