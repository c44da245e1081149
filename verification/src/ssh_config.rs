//! OpenSSH client configuration: the directive grammar of `~/.ssh/config`
//! (comments, quoting, `Keyword = value`), the concrete `Host` aliases it
//! declares, and the effective settings that `ssh -G` prints for one alias.
use crate::config::{opt_view, push_destination, spec_destination};
use crate::text::{
    all_digits, ascii_lower, char_is_space, chars_of, digits_value, eq_ignore_ascii_case, is_digit,
    is_space, lines, lines_of, lower_range, parse_u16, parse_u16_range, push_char, range_eq,
    range_eq_ignore_ascii_case, string_of_range, string_views, trim, trim_bounds, trim_start,
    unsigned_digits, views,
};
use vstd::prelude::*;
use vstd::utf8::{decode_utf8, valid_utf8};

verus! {

/// Where a line's comment starts, scanning from `i` in the given quoting state:
/// a `#` outside quotes and not after a backslash; the line's length if none.
pub open spec fn comment_cut(s: Seq<char>, i: int, quote: Option<char>, escaped: bool) -> int
    decreases s.len() - i,
{
    if i >= s.len() {
        s.len() as int
    } else if escaped {
        comment_cut(s, i + 1, quote, false)
    } else if s[i] == '\\' {
        comment_cut(s, i + 1, quote, true)
    } else {
        match quote {
            Some(q) => if s[i] == q {
                comment_cut(s, i + 1, None, false)
            } else {
                comment_cut(s, i + 1, quote, false)
            },
            None => if s[i] == '\'' || s[i] == '"' {
                comment_cut(s, i + 1, Some(s[i]), false)
            } else if s[i] == '#' {
                i
            } else {
                comment_cut(s, i + 1, None, false)
            },
        }
    }
}

/// The line without its comment.
pub open spec fn spec_strip_comment(s: Seq<char>) -> Seq<char> {
    s.take(comment_cut(s, 0, None, false))
}

proof fn lemma_comment_cut_bounds(s: Seq<char>, i: int, quote: Option<char>, escaped: bool)
    requires
        0 <= i,
    ensures
        i <= s.len() ==> i <= comment_cut(s, i, quote, escaped) <= s.len(),
    decreases s.len() - i,
{
    if i < s.len() {
        lemma_comment_cut_bounds(s, i + 1, quote, false);
        lemma_comment_cut_bounds(s, i + 1, quote, true);
        lemma_comment_cut_bounds(s, i + 1, None, false);
        lemma_comment_cut_bounds(s, i + 1, Some(s[i]), false);
    }
}

/// The index in `v` where its comment starts (its length if it has none).
pub fn comment_start(v: &Vec<char>) -> (cut: usize)
    ensures
        cut == comment_cut(v@, 0, None, false),
        cut <= v.len(),
{
    proof {
        lemma_comment_cut_bounds(v@, 0, None, false);
    }
    let mut quote: Option<char> = None;
    let mut escaped = false;
    let mut i: usize = 0;
    while i < v.len()
        invariant
            i <= v.len(),
            comment_cut(v@, 0, None, false) == comment_cut(v@, i as int, quote, escaped),
        decreases v.len() - i,
    {
        let c = v[i];
        if escaped {
            escaped = false;
        } else if c == '\\' {
            escaped = true;
        } else {
            match quote {
                Some(q) => {
                    if c == q {
                        quote = None;
                    }
                },
                None => {
                    if c == '\'' || c == '"' {
                        quote = Some(c);
                    } else if c == '#' {
                        return i;
                    }
                },
            }
        }
        i += 1;
    }
    i
}

/// `line` without its comment: everything from the first `#` that is neither
/// quoted nor escaped by a backslash.
pub fn strip_comment(line: &str) -> (r: String)
    ensures
        r@ == spec_strip_comment(line@),
{
    let v = chars_of(line);
    let cut = comment_start(&v);
    let r = string_of_range(&v, 0, cut);
    assert(v@.subrange(0, cut as int) == v@.take(cut as int));
    r
}

/// A character that a backslash makes literal.
pub open spec fn escapable(c: char) -> bool {
    is_space(c) || c == '\'' || c == '"' || c == '#' || c == '\\'
}

/// The words of `s` from index `i` on, given the words already complete, the
/// word being built and the open quote: white space outside quotes separates
/// words, quotes group and are dropped, a backslash makes the next white space,
/// quote, `#` or backslash literal.
pub open spec fn words_from(
    s: Seq<char>,
    i: int,
    words: Seq<Seq<char>>,
    cur: Seq<char>,
    quote: Option<char>,
) -> Seq<Seq<char>>
    decreases s.len() - i,
{
    if i >= s.len() {
        if cur.len() > 0 {
            words.push(cur)
        } else {
            words
        }
    } else {
        let c = s[i];
        if quote is Some && quote->0 == c {
            words_from(s, i + 1, words, cur, None)
        } else if quote is None && (c == '\'' || c == '"') {
            words_from(s, i + 1, words, cur, Some(c))
        } else if quote is None && is_space(c) {
            if cur.len() > 0 {
                words_from(s, i + 1, words.push(cur), Seq::empty(), None)
            } else {
                words_from(s, i + 1, words, cur, None)
            }
        } else if c == '\\' {
            if i + 1 < s.len() && escapable(s[i + 1]) {
                words_from(s, i + 2, words, cur.push(s[i + 1]), quote)
            } else {
                words_from(s, i + 1, words, cur.push('\\'), quote)
            }
        } else {
            words_from(s, i + 1, words, cur.push(c), quote)
        }
    }
}

/// The words of an argument list.
pub open spec fn spec_split_words(s: Seq<char>) -> Seq<Seq<char>> {
    words_from(s, 0, Seq::empty(), Seq::empty(), None)
}

/// The words of `v[from..to]`.
pub fn split_words_range(v: &Vec<char>, from: usize, to: usize) -> (words: Vec<String>)
    requires
        from <= to <= v.len(),
    ensures
        string_views(words@) == spec_split_words(v@.subrange(from as int, to as int)),
{
    let ghost s = v@.subrange(from as int, to as int);
    let mut words: Vec<String> = Vec::new();
    let mut cur = String::new();
    let mut quote: Option<char> = None;
    let mut i = from;
    assert(string_views(words@) =~= Seq::<Seq<char>>::empty());
    while i < to
        invariant
            from <= i <= to <= v.len(),
            s == v@.subrange(from as int, to as int),
            spec_split_words(s) == words_from(s, i - from, string_views(words@), cur@, quote),
        decreases to - i,
    {
        let c = v[i];
        let ghost k = i - from;
        assert(s[k] == c);
        let matches_quote = match quote {
            Some(q) => q == c,
            None => false,
        };
        if matches_quote {
            quote = None;
            i += 1;
        } else if quote.is_none() && (c == '\'' || c == '"') {
            quote = Some(c);
            i += 1;
        } else if quote.is_none() && char_is_space(c) {
            if !cur.as_str().is_empty() {
                let ghost before = string_views(words@);
                let done = cur;
                let ghost dv = done@;
                words.push(done);
                assert(string_views(words@) =~= before.push(dv));
                cur = String::new();
                assert(cur@ =~= Seq::<char>::empty());
            }
            i += 1;
        } else if c == '\\' {
            if i + 1 < to && {
                let n = v[i + 1];
                char_is_space(n) || n == '\'' || n == '"' || n == '#' || n == '\\'
            } {
                assert(s[k + 1] == v@[i + 1]);
                push_char(&mut cur, v[i + 1]);
                i += 2;
            } else {
                push_char(&mut cur, '\\');
                i += 1;
            }
        } else {
            push_char(&mut cur, c);
            i += 1;
        }
    }
    if !cur.as_str().is_empty() {
        let ghost before = string_views(words@);
        let ghost cv = cur@;
        words.push(cur);
        assert(string_views(words@) =~= before.push(cv));
    }
    words
}

/// The words of `value`.
pub fn split_words(value: &str) -> (words: Vec<String>)
    ensures
        string_views(words@) == spec_split_words(value@),
{
    let v = chars_of(value);
    assert(v@.subrange(0, v@.len() as int) == v@);
    split_words_range(&v, 0, v.len())
}


/// The end of the keyword in a directive: the first white space or `=` at or after `i`.
pub open spec fn key_end(l: Seq<char>, i: int) -> int
    decreases l.len() - i,
{
    if i >= l.len() {
        l.len() as int
    } else if is_space(l[i]) || l[i] == '=' {
        i
    } else {
        key_end(l, i + 1)
    }
}

/// `s.trim_start_matches([' ', '\t', '='])`.
pub open spec fn skip_assignment(s: Seq<char>) -> Seq<char>
    decreases s.len(),
{
    if s.len() > 0 && (s[0] == ' ' || s[0] == '\t' || s[0] == '=') {
        skip_assignment(s.drop_first())
    } else {
        s
    }
}

/// A configuration line as keyword (in lower case) and values; `None` for a
/// line that is empty once its comment and surrounding white space are gone.
pub open spec fn spec_parse_directive(line: Seq<char>) -> Option<(Seq<char>, Seq<Seq<char>>)> {
    let l = trim(spec_strip_comment(line));
    if l.len() == 0 {
        None
    } else {
        let k = key_end(l, 0);
        Some((ascii_lower(l.take(k)), spec_split_words(skip_assignment(l.skip(k)))))
    }
}

proof fn lemma_key_end_bounds(l: Seq<char>, i: int)
    requires
        0 <= i <= l.len(),
    ensures
        i <= key_end(l, i) <= l.len(),
    decreases l.len() - i,
{
    if i < l.len() {
        lemma_key_end_bounds(l, i + 1);
    }
}

/// The directive on the line `v`, with the keyword as characters.
fn directive_of(v: &Vec<char>) -> (r: Option<(Vec<char>, Vec<String>)>)
    ensures
        match spec_parse_directive(v@) {
            None => r is None,
            Some((keyword, values)) => r matches Some((k, w)) && k@ == keyword && string_views(w@) == values,
        },
{
    let cut = comment_start(v);
    assert(v@.subrange(0, cut as int) == spec_strip_comment(v@));
    let (a, b) = trim_bounds(v, 0, cut);
    let ghost l = v@.subrange(a as int, b as int);
    if a == b {
        return None;
    }
    let mut k = a;
    proof {
        lemma_key_end_bounds(l, 0);
    }
    while k < b && !(char_is_space(v[k]) || v[k] == '=')
        invariant
            a <= k <= b <= v.len(),
            l == v@.subrange(a as int, b as int),
            key_end(l, 0) == key_end(l, k - a),
        decreases b - k,
    {
        k += 1;
    }
    let keyword = lower_range(v, a, k);
    assert(v@.subrange(a as int, k as int) == l.take(k - a));
    assert(l.skip(k - a) == v@.subrange(k as int, b as int));
    let mut r = k;
    while r < b && (v[r] == ' ' || v[r] == '\t' || v[r] == '=')
        invariant
            k <= r <= b <= v.len(),
            l == v@.subrange(a as int, b as int),
            skip_assignment(l.skip(k - a)) == skip_assignment(v@.subrange(r as int, b as int)),
        decreases b - r,
    {
        assert(v@.subrange(r as int, b as int).drop_first() == v@.subrange(r + 1, b as int));
        r += 1;
    }
    assert(l.skip(k - a) == v@.subrange(k as int, b as int));
    let values = split_words_range(v, r, b);
    Some((keyword, values))
}

/// Splits a configuration line into its lower-case keyword and its values,
/// after removing the comment; `None` for a line with nothing left.
pub fn parse_directive(line: &str) -> (r: Option<(String, Vec<String>)>)
    ensures
        match spec_parse_directive(line@) {
            None => r is None,
            Some((keyword, values)) => r matches Some((k, w)) && k@ == keyword && string_views(w@) == values,
        },
{
    let v = chars_of(line);
    match directive_of(&v) {
        None => None,
        Some((keyword, values)) => {
            let k = string_of_range(&keyword, 0, keyword.len());
            assert(keyword@.subrange(0, keyword@.len() as int) == keyword@);
            Some((k, values))
        },
    }
}

/// A `Host` pattern that names one host: not empty, not negated, not an
/// option, without white space or wildcard characters.
pub open spec fn spec_is_concrete_alias(value: Seq<char>) -> bool {
    &&& value.len() > 0
    &&& value[0] != '!'
    &&& value[0] != '-'
    &&& forall|i: int| 0 <= i < value.len() ==> !(is_space(#[trigger] value[i]) || value[i] == '*'
        || value[i] == '?' || value[i] == '[' || value[i] == ']')
}

pub fn is_concrete_alias(value: &str) -> (r: bool)
    ensures
        r == spec_is_concrete_alias(value@),
{
    let v = chars_of(value);
    if v.len() == 0 || v[0] == '!' || v[0] == '-' {
        return false;
    }
    for i in 0..v.len()
        invariant
            v@ == value@,
            forall|j: int| 0 <= j < i ==> !(is_space(#[trigger] v@[j]) || v@[j] == '*' || v@[j] == '?'
                || v@[j] == '[' || v@[j] == ']'),
    {
        let c = v[i];
        if char_is_space(c) || c == '*' || c == '?' || c == '[' || c == ']' {
            return false;
        }
    }
    true
}

/// What a configuration line contributes to the list of aliases.
#[derive(Debug, PartialEq, Eq)]
pub enum ConfigLine {
    /// A `Host` line with its patterns.
    Host(Vec<String>),
    /// An `Include` line with its file patterns.
    Include(Vec<String>),
    /// Any other line.
    Other,
}

/// How a line is read: by its keyword, `host` or `include`, with its values.
pub open spec fn spec_classify_line(line: Seq<char>) -> (u8, Seq<Seq<char>>) {
    match spec_parse_directive(line) {
        Some((keyword, values)) => if keyword == "host"@ {
            (1, values)
        } else if keyword == "include"@ {
            (2, values)
        } else {
            (0, Seq::empty())
        },
        None => (0, Seq::empty()),
    }
}

pub open spec fn config_line_matches(c: ConfigLine, spec: (u8, Seq<Seq<char>>)) -> bool {
    match c {
        ConfigLine::Host(values) => spec.0 == 1 && string_views(values@) == spec.1,
        ConfigLine::Include(values) => spec.0 == 2 && string_views(values@) == spec.1,
        ConfigLine::Other => spec.0 == 0,
    }
}

/// What one line of a configuration file declares.
pub fn classify_line(v: &Vec<char>) -> (r: ConfigLine)
    ensures
        config_line_matches(r, spec_classify_line(v@)),
{
    match directive_of(v) {
        None => ConfigLine::Other,
        Some((keyword, values)) => {
            if range_eq(&keyword, 0, keyword.len(), "host") {
                assert(keyword@.subrange(0, keyword@.len() as int) == keyword@);
                ConfigLine::Host(values)
            } else if range_eq(&keyword, 0, keyword.len(), "include") {
                assert(keyword@.subrange(0, keyword@.len() as int) == keyword@);
                ConfigLine::Include(values)
            } else {
                assert(keyword@.subrange(0, keyword@.len() as int) == keyword@);
                ConfigLine::Other
            }
        },
    }
}

/// The lines of a configuration file, each read as `classify_line` reads it.
pub fn classify_lines(contents: &str) -> (r: Vec<ConfigLine>)
    ensures
        r@.len() == lines(contents@).len(),
        forall|i: int| 0 <= i < r@.len() ==> config_line_matches(#[trigger] r@[i], spec_classify_line(lines(contents@)[i])),
{
    let v = chars_of(contents);
    let ls = lines_of(&v);
    assert(views(ls@).len() == ls@.len());
    let mut r: Vec<ConfigLine> = Vec::new();
    for i in 0..ls.len()
        invariant
            views(ls@) == lines(contents@),
            r@.len() == i,
            forall|j: int| 0 <= j < i ==> config_line_matches(#[trigger] r@[j], spec_classify_line(lines(contents@)[j])),
    {
        assert(views(ls@)[i as int] == ls@[i as int]@);
        r.push(classify_line(&ls[i]));
    }
    r
}

/// Adds the concrete aliases among `values` that are not yet in `aliases`, in order.
pub open spec fn add_aliases(aliases: Seq<Seq<char>>, values: Seq<Seq<char>>) -> Seq<Seq<char>>
    decreases values.len(),
{
    if values.len() == 0 {
        aliases
    } else {
        let before = add_aliases(aliases, values.drop_last());
        let v = values.last();
        if spec_is_concrete_alias(v) && !before.contains(v) {
            before.push(v)
        } else {
            before
        }
    }
}

/// The aliases found so far, each once, in the order first seen.
pub struct AliasCollector {
    aliases: Vec<String>,
}

impl View for AliasCollector {
    type V = Seq<Seq<char>>;

    closed spec fn view(&self) -> Seq<Seq<char>> {
        string_views(self.aliases@)
    }
}

fn contains_string(v: &Vec<String>, s: &String) -> (r: bool)
    ensures
        r == string_views(v@).contains(s@),
{
    for i in 0..v.len()
        invariant
            forall|j: int| 0 <= j < i ==> v@[j]@ != s@,
    {
        if v[i] == *s {
            assert(string_views(v@)[i as int] == s@);
            return true;
        }
    }
    assert forall|j: int| 0 <= j < string_views(v@).len() implies string_views(v@)[j] != s@ by {
        assert(string_views(v@)[j] == v@[j]@);
    }
    false
}

impl AliasCollector {
    pub fn new() -> (c: Self)
        ensures
            c@ == Seq::<Seq<char>>::empty(),
    {
        let c = AliasCollector { aliases: Vec::new() };
        assert(c@ =~= Seq::<Seq<char>>::empty());
        c
    }

    /// Takes the concrete aliases of one `Host` line.
    pub fn add_host_values(&mut self, values: &Vec<String>)
        ensures
            final(self)@ == add_aliases(old(self)@, string_views(values@)),
    {
        let ghost start = self@;
        for i in 0..values.len()
            invariant
                self@ == add_aliases(start, string_views(values@).take(i as int)),
        {
            let value = &values[i];
            assert(string_views(values@).take(i + 1).drop_last() == string_views(values@).take(i as int));
            if is_concrete_alias(value.as_str()) && !contains_string(&self.aliases, value) {
                let ghost before = self@;
                self.aliases.push(value.clone());
                assert(self@ =~= before.push(value@));
            }
        }
        assert(string_views(values@).take(values.len() as int) == string_views(values@));
    }

    /// The aliases collected, in order.
    pub fn into_aliases(self) -> (aliases: Vec<String>)
        ensures
            string_views(aliases@) == self@,
    {
        self.aliases
    }
}


/// The settings of one `Host` alias that a tunnel needs, as `ssh -G` resolved them.
#[derive(Debug, PartialEq, Eq)]
pub struct SshConnection {
    pub alias: String,
    pub host_name: String,
    pub user: String,
    pub port: u16,
    pub proxy_jump: Option<String>,
}

impl Clone for SshConnection {
    fn clone(&self) -> (r: Self)
        ensures
            r == *self,
    {
        SshConnection {
            alias: self.alias.clone(),
            host_name: self.host_name.clone(),
            user: self.user.clone(),
            port: self.port,
            proxy_jump: crate::config::clone_option_string(&self.proxy_jump),
        }
    }
}

impl SshConnection {
    /// `user@host:port`.
    pub fn destination(&self) -> (d: String)
        ensures
            d@ == spec_destination(self.user@, self.host_name@, self.port),
    {
        let mut out = String::new();
        push_destination(&mut out, self.user.as_str(), self.host_name.as_str(), self.port);
        out
    }
}

/// The settings read so far from the output of `ssh -G`.
pub struct EffectiveFields {
    pub host_name: Option<Seq<char>>,
    pub user: Option<Seq<char>>,
    pub port: Option<u16>,
    pub proxy_jump: Option<Seq<char>>,
}

/// The first white space at or after `i` (the length when there is none).
pub open spec fn first_space(l: Seq<char>, i: int) -> int
    decreases l.len() - i,
{
    if i >= l.len() {
        l.len() as int
    } else if is_space(l[i]) {
        i
    } else {
        first_space(l, i + 1)
    }
}

proof fn lemma_first_space_bounds(l: Seq<char>, i: int)
    requires
        0 <= i <= l.len(),
    ensures
        i <= first_space(l, i) <= l.len(),
        first_space(l, i) < l.len() ==> is_space(l[first_space(l, i)]),
    decreases l.len() - i,
{
    if i < l.len() {
        lemma_first_space_bounds(l, i + 1);
    }
}

/// One line of `ssh -G` output: the keyword up to the first white space, the
/// trimmed rest as its value. The first `hostname`, `user` and `port` lines
/// count (a `port` that is no number leaves the port unset), and the first
/// `proxyjump` that is not `none`.
pub open spec fn effective_step(f: EffectiveFields, line: Seq<char>) -> EffectiveFields {
    let j = first_space(line, 0);
    if j >= line.len() {
        f
    } else {
        let keyword = ascii_lower(line.take(j));
        let value = trim(line.skip(j + 1));
        if keyword == "hostname"@ && f.host_name is None {
            EffectiveFields { host_name: Some(value), ..f }
        } else if keyword == "user"@ && f.user is None {
            EffectiveFields { user: Some(value), ..f }
        } else if keyword == "port"@ && f.port is None {
            EffectiveFields { port: parse_u16(value), ..f }
        } else if keyword == "proxyjump"@ && f.proxy_jump is None && !eq_ignore_ascii_case(value, "none"@) {
            EffectiveFields { proxy_jump: Some(value), ..f }
        } else {
            f
        }
    }
}

/// The settings after reading the lines `ls` in order.
pub open spec fn effective_fold(ls: Seq<Seq<char>>) -> EffectiveFields
    decreases ls.len(),
{
    if ls.len() == 0 {
        EffectiveFields { host_name: None, user: None, port: None, proxy_jump: None }
    } else {
        effective_step(effective_fold(ls.drop_last()), ls.last())
    }
}

pub open spec fn no_user_message() -> Seq<char> {
    "OpenSSH 未返回用户名"@
}

pub open spec fn no_port_message() -> Seq<char> {
    "OpenSSH 未返回有效端口"@
}

/// The connection that `ssh -G` output describes for `alias`: user and port
/// are required (the user is checked first), the host name defaults to the alias.
pub open spec fn effective_result_ok(alias: Seq<char>, output: Seq<char>, c: SshConnection) -> bool {
    let f = effective_fold(lines(output));
    &&& c.alias@ == alias
    &&& c.host_name@ == (match f.host_name {
        Some(h) => h,
        None => alias,
    })
    &&& f.user == Some(c.user@)
    &&& f.port == Some(c.port)
    &&& opt_view(c.proxy_jump) == f.proxy_jump
}

fn string_of_vec(v: &Vec<char>) -> (s: String)
    ensures
        s@ == v@,
{
    let s = string_of_range(v, 0, v.len());
    assert(v@.subrange(0, v@.len() as int) == v@);
    s
}

/// Reads the settings of `alias` from the output of `ssh -G -F <config> <alias>`.
pub fn parse_effective_config(alias: &str, output: &str) -> (r: Result<SshConnection, String>)
    ensures
        r is Ok <==> (effective_fold(lines(output@)).user is Some && effective_fold(lines(output@)).port is Some),
        r matches Ok(c) ==> effective_result_ok(alias@, output@, c),
        r matches Err(e) ==> e@ == (if effective_fold(lines(output@)).user is None {
            no_user_message()
        } else {
            no_port_message()
        }),
{
    let v = chars_of(output);
    let ls = lines_of(&v);
    assert(views(ls@).len() == ls@.len());
    let mut host_name: Option<String> = None;
    let mut user: Option<String> = None;
    let mut port: Option<u16> = None;
    let mut proxy_jump: Option<String> = None;
    for i in 0..ls.len()
        invariant
            views(ls@) == lines(output@),
            ({
                let f = effective_fold(lines(output@).take(i as int));
                &&& opt_view(host_name) == f.host_name
                &&& opt_view(user) == f.user
                &&& port == f.port
                &&& opt_view(proxy_jump) == f.proxy_jump
            }),
    {
        let line = &ls[i];
        assert(views(ls@)[i as int] == line@);
        assert(lines(output@).take(i + 1).drop_last() == lines(output@).take(i as int));
        let ghost f = effective_fold(lines(output@).take(i as int));
        proof {
            lemma_first_space_bounds(line@, 0);
        }
        let mut j: usize = 0;
        while j < line.len() && !char_is_space(line[j])
            invariant
                j <= line@.len(),
                first_space(line@, 0) == first_space(line@, j as int),
            decreases line@.len() - j,
        {
            j += 1;
        }
        if j < line.len() {
            let keyword = lower_range(line, 0, j);
            assert(line@.subrange(0, j as int) == line@.take(j as int));
            let (a, b) = trim_bounds(line, j + 1, line.len());
            assert(line@.subrange(j + 1, line@.len() as int) == line@.skip(j + 1));
            let klen = keyword.len();
            assert(keyword@.subrange(0, klen as int) == keyword@);
            if range_eq(&keyword, 0, klen, "hostname") && host_name.is_none() {
                host_name = Some(string_of_range(line, a, b));
            } else if range_eq(&keyword, 0, klen, "user") && user.is_none() {
                user = Some(string_of_range(line, a, b));
            } else if range_eq(&keyword, 0, klen, "port") && port.is_none() {
                port = parse_u16_range(line, a, b);
            } else if range_eq(&keyword, 0, klen, "proxyjump") && proxy_jump.is_none()
                && !range_eq_ignore_ascii_case(line, a, b, "none") {
                proxy_jump = Some(string_of_range(line, a, b));
            }
        }
    }
    assert(lines(output@).take(ls.len() as int) == lines(output@));
    let user = match user {
        Some(u) => u,
        None => return Err(String::from_str("OpenSSH 未返回用户名")),
    };
    let port = match port {
        Some(p) => p,
        None => return Err(String::from_str("OpenSSH 未返回有效端口")),
    };
    let host_name = match host_name {
        Some(h) => h,
        None => String::from_str(alias),
    };
    Ok(SshConnection { alias: String::from_str(alias), host_name, user, port, proxy_jump })
}

/// `String::from_utf8(bytes).ok()`: the text the bytes encode when they are
/// valid UTF-8 (as vstd's `valid_utf8` and `decode_utf8` state it), else nothing.
#[verifier::external_body]
fn utf8_string(bytes: Vec<u8>) -> (r: Option<String>)
    ensures
        r is Some <==> valid_utf8(bytes@),
        r matches Some(s) ==> s@ == decode_utf8(bytes@),
{
    String::from_utf8(bytes).ok()
}

pub open spec fn invalid_utf8_message() -> Seq<char> {
    "OpenSSH 返回的连接数据不是有效的 UTF-8"@
}

pub open spec fn exit_status_prefix() -> Seq<char> {
    "ssh -G 已退出，状态为 "@
}

/// What `ssh -G` answered for `alias`, given whether it succeeded, how it
/// exited (as text), what it printed and what it reported on its error stream.
/// A failure is reported by its trimmed error text, or by its exit status when
/// that text is empty.
pub fn resolve_output(
    alias: &str,
    success: bool,
    status: &str,
    stdout: Vec<u8>,
    stderr: &str,
) -> (r: Result<SshConnection, String>)
    ensures
        !success ==> (r matches Err(e) && e@ == (if trim(stderr@).len() == 0 {
            exit_status_prefix() + status@
        } else {
            trim(stderr@)
        })),
        success && !valid_utf8(stdout@) ==> (r matches Err(e) && e@ == invalid_utf8_message()),
        success && valid_utf8(stdout@) ==> ({
            let output = decode_utf8(stdout@);
            &&& (r is Ok <==> (effective_fold(lines(output)).user is Some && effective_fold(lines(output)).port is Some))
            &&& (r matches Ok(c) ==> effective_result_ok(alias@, output, c))
            &&& (r matches Err(e) ==> e@ == (if effective_fold(lines(output)).user is None {
                no_user_message()
            } else {
                no_port_message()
            }))
        }),
{
    if !success {
        let v = chars_of(stderr);
        let (a, b) = trim_bounds(&v, 0, v.len());
        assert(v@.subrange(0, v@.len() as int) == v@);
        if a == b {
            let mut message = String::from_str("ssh -G 已退出，状态为 ");
            message.append(status);
            return Err(message);
        }
        return Err(string_of_range(&v, a, b));
    }
    match utf8_string(stdout) {
        None => Err(String::from_str("OpenSSH 返回的连接数据不是有效的 UTF-8")),
        Some(text) => parse_effective_config(alias, text.as_str()),
    }
}


/// The outcome of importing the configuration file `config_path`.
#[derive(Debug)]
pub struct SshConfigImport {
    pub config_path: String,
    pub connections: Vec<SshConnection>,
    pub warnings: Vec<String>,
}

/// The connections among `results`, in order.
pub open spec fn ok_connections(results: Seq<Result<SshConnection, String>>) -> Seq<SshConnection>
    decreases results.len(),
{
    if results.len() == 0 {
        Seq::empty()
    } else {
        let before = ok_connections(results.drop_last());
        match results.last() {
            Ok(c) => before.push(c),
            Err(_) => before,
        }
    }
}

/// `alias: error` for each alias whose result is an error, in order.
pub open spec fn warning_texts(aliases: Seq<Seq<char>>, results: Seq<Result<SshConnection, String>>) -> Seq<Seq<char>>
    decreases results.len(),
{
    if results.len() == 0 {
        Seq::empty()
    } else {
        let before = warning_texts(aliases, results.drop_last());
        match results.last() {
            Ok(_) => before,
            Err(e) => before.push(aliases[results.len() - 1] + seq![':', ' '] + e@),
        }
    }
}

pub open spec fn no_alias_prefix() -> Seq<char> {
    "SSH 配置文件中没有可导入的具体 Host 别名："@
}

pub open spec fn none_resolved_prefix() -> Seq<char> {
    "OpenSSH 无法解析任何 Host 别名"@
}

/// The error when no alias could be resolved: the first warning, if any, is appended.
pub open spec fn none_resolved_message(warnings: Seq<Seq<char>>) -> Seq<char> {
    if warnings.len() == 0 {
        none_resolved_prefix()
    } else {
        none_resolved_prefix() + seq![':', ' '] + warnings[0]
    }
}

/// Puts together the import of `config_path` from its aliases and what
/// `ssh -G` answered for each (`results[i]` for `aliases[i]`): an error when the
/// file declares no concrete alias or when no alias resolved; otherwise the
/// resolved connections, and a warning for each alias that did not resolve.
pub fn collect_import(
    config_path: String,
    aliases: &Vec<String>,
    results: Vec<Result<SshConnection, String>>,
) -> (r: Result<SshConfigImport, String>)
    requires
        aliases@.len() == results@.len(),
    ensures
        aliases@.len() == 0 ==> (r matches Err(e) && e@ == no_alias_prefix() + config_path@),
        aliases@.len() > 0 && ok_connections(results@).len() == 0 ==> (r matches Err(e) && e@
            == none_resolved_message(warning_texts(string_views(aliases@), results@))),
        aliases@.len() > 0 && ok_connections(results@).len() > 0 ==> (r matches Ok(import) && import.config_path
            == config_path && import.connections@ == ok_connections(results@) && string_views(
            import.warnings@,
        ) == warning_texts(string_views(aliases@), results@)),
{
    if aliases.len() == 0 {
        let mut message = String::from_str("SSH 配置文件中没有可导入的具体 Host 别名：");
        message.append(config_path.as_str());
        return Err(message);
    }
    let ghost all = results@;
    let ghost names = string_views(aliases@);
    let mut connections: Vec<SshConnection> = Vec::new();
    let mut warnings: Vec<String> = Vec::new();
    let mut i: usize = 0;
    let mut rest = results;
    assert(string_views(warnings@) =~= Seq::<Seq<char>>::empty());
    while i < aliases.len()
        invariant
            i <= aliases@.len() == all.len(),
            names == string_views(aliases@),
            rest@ == all.skip(i as int),
            connections@ == ok_connections(all.take(i as int)),
            string_views(warnings@) == warning_texts(names, all.take(i as int)),
        decreases aliases@.len() - i,
    {
        assert(rest@.len() > 0);
        let result = rest.remove(0);
        assert(result == all[i as int]);
        assert(all.take(i + 1).drop_last() == all.take(i as int));
        assert(all.take(i + 1).last() == all[i as int]);
        assert(rest@ =~= all.skip(i + 1));
        assert(warning_texts(names, all.take(i as int)) == warning_texts(names, all.take(i + 1).drop_last()));
        match result {
            Ok(connection) => {
                connections.push(connection);
            },
            Err(error) => {
                let mut warning = String::new();
                warning.append(aliases[i].as_str());
                push_char(&mut warning, ':');
                push_char(&mut warning, ' ');
                warning.append(error.as_str());
                assert(names[i as int] == aliases@[i as int]@);
                assert(warning@ =~= names[i as int] + seq![':', ' '] + error@);
                let ghost before = string_views(warnings@);
                let ghost wv = warning@;
                warnings.push(warning);
                assert(string_views(warnings@) =~= before.push(wv));
            },
        }
        i += 1;
    }
    assert(all.take(aliases.len() as int) == all);
    if connections.len() == 0 {
        let mut message = String::from_str("OpenSSH 无法解析任何 Host 别名");
        if warnings.len() > 0 {
            push_char(&mut message, ':');
            push_char(&mut message, ' ');
            message.append(warnings[0].as_str());
            assert(string_views(warnings@)[0] == warnings@[0]@);
        }
        return Err(message);
    }
    Ok(SshConfigImport { config_path, connections, warnings })
}


/// `s[i..]` with each `%d` (taken left to right) replaced by `home`.
pub open spec fn replace_home_from(s: Seq<char>, i: int, home: Seq<char>) -> Seq<char>
    decreases s.len() - i,
{
    if i >= s.len() {
        Seq::empty()
    } else if i + 1 < s.len() && s[i] == '%' && s[i + 1] == 'd' {
        home + replace_home_from(s, i + 2, home)
    } else {
        seq![s[i]] + replace_home_from(s, i + 1, home)
    }
}

/// Where an `Include` pattern points once `%d` stands for the home directory.
#[derive(Debug, PartialEq, Eq)]
pub enum IncludeTarget {
    /// `~`: the home directory itself.
    Home,
    /// `~/rest` or `~\rest`: `rest` under the home directory.
    UnderHome(String),
    /// Any other pattern: absolute, or relative to the directory of the main file.
    Path(String),
}

/// The target of an include pattern whose `%d` tokens are already replaced.
pub open spec fn spec_include_target(expanded: Seq<char>) -> (u8, Seq<char>) {
    if expanded == seq!['~'] {
        (0, Seq::empty())
    } else if expanded.len() >= 2 && expanded[0] == '~' && (expanded[1] == '/' || expanded[1] == '\\') {
        (1, expanded.skip(2))
    } else {
        (2, expanded)
    }
}

pub open spec fn include_target_matches(t: IncludeTarget, spec: (u8, Seq<char>)) -> bool {
    match t {
        IncludeTarget::Home => spec.0 == 0,
        IncludeTarget::UnderHome(rest) => spec.0 == 1 && rest@ == spec.1,
        IncludeTarget::Path(path) => spec.0 == 2 && path@ == spec.1,
    }
}

/// Reads an `Include` pattern: `%d` stands for the home directory `home`, and a
/// leading `~` for the home directory too.
pub fn include_target(pattern: &str, home: &str) -> (t: IncludeTarget)
    ensures
        include_target_matches(t, spec_include_target(replace_home_from(pattern@, 0, home@))),
{
    let v = chars_of(pattern);
    let h = chars_of(home);
    let mut e: Vec<char> = Vec::new();
    let mut i: usize = 0;
    while i < v.len()
        invariant
            i <= v.len(),
            v@ == pattern@,
            h@ == home@,
            replace_home_from(v@, 0, h@) == e@ + replace_home_from(v@, i as int, h@),
        decreases v.len() - i,
    {
        if i + 1 < v.len() && v[i] == '%' && v[i + 1] == 'd' {
            let ghost before = e@;
            for k in 0..h.len()
                invariant
                    e@ == before + h@.take(k as int),
            {
                e.push(h[k]);
                assert(e@ =~= before + h@.take(k + 1));
            }
            assert(h@.take(h@.len() as int) == h@);
            assert(e@ + replace_home_from(v@, i + 2, h@) =~= before + (h@ + replace_home_from(v@, i + 2, h@)));
            i += 2;
        } else {
            let ghost before = e@;
            e.push(v[i]);
            assert(e@ + replace_home_from(v@, i + 1, h@) =~= before + (seq![v@[i as int]] + replace_home_from(v@, i + 1, h@)));
            i += 1;
        }
    }
    assert(e@ =~= e@ + Seq::<char>::empty());
    if e.len() == 1 && e[0] == '~' {
        assert(e@ =~= seq!['~']);
        return IncludeTarget::Home;
    }
    if e.len() >= 2 && e[0] == '~' && (e[1] == '/' || e[1] == '\\') {
        let rest = string_of_range(&e, 2, e.len());
        assert(e@.subrange(2, e@.len() as int) == e@.skip(2));
        return IncludeTarget::UnderHome(rest);
    }
    let path = string_of_range(&e, 0, e.len());
    assert(e@.subrange(0, e@.len() as int) == e@);
    IncludeTarget::Path(path)
}


/// What a classified line says, as `spec_classify_line` gives it: 1 with the
/// patterns of a `Host` line, 2 with those of an `Include` line, 0 otherwise.
pub open spec fn line_view(c: ConfigLine) -> (u8, Seq<Seq<char>>) {
    match c {
        ConfigLine::Host(values) => (1, string_views(values@)),
        ConfigLine::Include(values) => (2, string_views(values@)),
        ConfigLine::Other => (0, Seq::empty()),
    }
}

proof fn lemma_line_view(c: ConfigLine, l: Seq<char>)
    requires
        config_line_matches(c, spec_classify_line(l)),
    ensures
        line_view(c) == spec_classify_line(l),
{
}

/// A configuration file that the walk is reading: its classified lines and
/// how far it got in them, the patterns of the `Include` line being followed
/// and the files the current pattern matched.
pub struct FrameView {
    pub lines: Seq<(u8, Seq<Seq<char>>)>,
    pub next: nat,
    pub patterns: Seq<Seq<char>>,
    pub next_pattern: nat,
    pub matches: Seq<Seq<char>>,
    pub next_match: nat,
}

/// What the walk waits for: a path to be opened (and whether it must exist),
/// an opened file to be read, an `Include` pattern to be expanded; or its end.
pub enum PendingView {
    Open(Seq<char>, bool),
    Read(Seq<char>),
    Expand(Seq<char>),
    Finished,
    Failed(Seq<char>),
}

/// The walk as plain values: the home directory, the files already read (by
/// canonical path), the files being read (the innermost last), the aliases
/// found so far, and what it waits for.
pub struct WalkView {
    pub home: Seq<char>,
    pub visited: Seq<Seq<char>>,
    pub frames: Seq<FrameView>,
    pub aliases: Seq<Seq<char>>,
    pub pending: PendingView,
}

/// A file that was just opened, before its first line.
pub open spec fn new_frame(text: Seq<char>) -> FrameView {
    FrameView {
        lines: lines(text).map_values(|l: Seq<char>| spec_classify_line(l)),
        next: 0,
        patterns: Seq::empty(),
        next_pattern: 0,
        matches: Seq::empty(),
        next_match: 0,
    }
}

/// The lines of the innermost file that are still to be read.
pub open spec fn top_remaining(w: WalkView) -> nat {
    if w.frames.len() == 0 {
        0
    } else if w.frames.last().next < w.frames.last().lines.len() {
        (w.frames.last().lines.len() - w.frames.last().next) as nat
    } else {
        0
    }
}

/// The walk carried on until it needs outside work: in the innermost file, the
/// next file matched by the current pattern is opened (it need not exist); else
/// the next pattern of the `Include` line is expanded; else the next line is
/// read (a `Host` line adds its concrete aliases, an `Include` line starts on
/// its patterns); a file that is done is left for the one that included it;
/// when no file is left the walk is finished.
pub open spec fn walk_advance(w: WalkView) -> WalkView
    decreases w.frames.len(), top_remaining(w),
{
    if w.frames.len() == 0 {
        WalkView { pending: PendingView::Finished, ..w }
    } else {
        let f = w.frames.last();
        let rest = w.frames.drop_last();
        if f.next_match < f.matches.len() {
            WalkView {
                frames: rest.push(FrameView { next_match: f.next_match + 1, ..f }),
                pending: PendingView::Open(f.matches[f.next_match as int], false),
                ..w
            }
        } else if f.next_pattern < f.patterns.len() {
            WalkView {
                frames: rest.push(FrameView { next_pattern: f.next_pattern + 1, ..f }),
                pending: PendingView::Expand(f.patterns[f.next_pattern as int]),
                ..w
            }
        } else if f.next < f.lines.len() {
            let line = f.lines[f.next as int];
            let g = FrameView { next: f.next + 1, ..f };
            if line.0 == 1 {
                walk_advance(WalkView { frames: rest.push(g), aliases: add_aliases(w.aliases, line.1), ..w })
            } else if line.0 == 2 {
                walk_advance(
                    WalkView {
                        frames: rest.push(
                            FrameView { patterns: line.1, next_pattern: 0, matches: Seq::empty(), next_match: 0, ..g },
                        ),
                        ..w
                    },
                )
            } else {
                walk_advance(WalkView { frames: rest.push(g), ..w })
            }
        } else {
            walk_advance(WalkView { frames: rest, ..w })
        }
    }
}

/// The walk with the files an `Include` pattern matched, for the innermost file.
pub open spec fn with_matches(w: WalkView, matches: Seq<Seq<char>>) -> WalkView {
    if w.frames.len() == 0 {
        w
    } else {
        WalkView {
            frames: w.frames.drop_last().push(FrameView { matches, next_match: 0, ..w.frames.last() }),
            ..w
        }
    }
}

pub open spec fn open_message(path: Seq<char>, error: Seq<char>) -> Seq<char> {
    "无法打开 "@ + path + "："@ + error
}

pub open spec fn read_message(path: Seq<char>, error: Seq<char>) -> Seq<char> {
    "无法读取 "@ + path + "："@ + error
}

pub open spec fn pattern_message(pattern: Seq<char>, error: Seq<char>) -> Seq<char> {
    "SSH Include 模式无效 "@ + pattern + "："@ + error
}

/// The walk of the configuration file `config_path`, before anything was read.
pub open spec fn walk_start(config_path: Seq<char>, home: Seq<char>) -> WalkView {
    WalkView {
        home,
        visited: Seq::empty(),
        frames: Seq::empty(),
        aliases: Seq::empty(),
        pending: PendingView::Open(config_path, true),
    }
}

/// The walk after the outcome `e` of the work it waited for:
/// - an opened path whose canonical form was read before is skipped;
///   otherwise the file is to be read;
/// - a path that does not exist is skipped when it came from an `Include`,
///   and ends the walk with an error when it is the main file;
/// - any other failure to open or read a file, and a bad pattern, end the walk
///   with an error;
/// - a file's text is read line by line before the rest of the file that
///   included it (depth first);
/// - the files a pattern matched are opened in the order given.
/// An outcome of other work than the one waited for changes nothing.
pub open spec fn walk_step(w: WalkView, e: WalkEvent) -> WalkView {
    match w.pending {
        PendingView::Open(path, required) => match e {
            WalkEvent::Canonical(c) => if w.visited.contains(c@) {
                walk_advance(w)
            } else {
                WalkView { visited: w.visited.push(c@), pending: PendingView::Read(c@), ..w }
            },
            WalkEvent::NotFound(error) => if required {
                WalkView { pending: PendingView::Failed(open_message(path, error@)), ..w }
            } else {
                walk_advance(w)
            },
            WalkEvent::OpenFailed(error) => WalkView { pending: PendingView::Failed(open_message(path, error@)), ..w },
            _ => w,
        },
        PendingView::Read(path) => match e {
            WalkEvent::Contents(text) => walk_advance(WalkView { frames: w.frames.push(new_frame(text@)), ..w }),
            WalkEvent::ReadFailed(error) => WalkView { pending: PendingView::Failed(read_message(path, error@)), ..w },
            _ => w,
        },
        PendingView::Expand(_) => match e {
            WalkEvent::Expanded(matches) => walk_advance(with_matches(w, string_views(matches@))),
            WalkEvent::BadPattern { pattern, error } => WalkView {
                pending: PendingView::Failed(pattern_message(pattern@, error@)),
                ..w
            },
            _ => w,
        },
        _ => w,
    }
}

/// The outcome of the outside work that the walk asked for.
#[derive(Debug)]
pub enum WalkEvent {
    /// The path was opened; this is its canonical form.
    Canonical(String),
    /// The path does not exist; the error as text.
    NotFound(String),
    /// The path could not be opened for another reason; the error as text.
    OpenFailed(String),
    /// The text of the file.
    Contents(String),
    /// The file could not be read; the error as text.
    ReadFailed(String),
    /// The files the pattern matched, in the order to visit them.
    Expanded(Vec<String>),
    /// The pattern (as expanded to a path) is no valid glob pattern.
    BadPattern { pattern: String, error: String },
}

/// The outside work the walk asks for, or its result.
#[derive(Debug, PartialEq, Eq)]
pub enum WalkAction {
    /// Open `path` and give its canonical form; `required` for the main file.
    Open { path: String, required: bool },
    /// Read the file at this canonical path.
    Read(String),
    /// Give the files that the `Include` pattern names.
    Expand(IncludeTarget),
    /// The walk is over: the aliases, each once, in the order first seen.
    Done(Vec<String>),
    /// The walk failed with this message.
    Fail(String),
}

/// Whether `a` is what the walk `w` asks for.
pub open spec fn action_shows(a: WalkAction, w: WalkView) -> bool {
    match a {
        WalkAction::Open { path, required } => w.pending == PendingView::Open(path@, required),
        WalkAction::Read(path) => w.pending == PendingView::Read(path@),
        WalkAction::Expand(t) => w.pending matches PendingView::Expand(p) && include_target_matches(
            t,
            spec_include_target(replace_home_from(p, 0, w.home)),
        ),
        WalkAction::Done(aliases) => w.pending == PendingView::Finished && string_views(aliases@) == w.aliases,
        WalkAction::Fail(message) => w.pending == PendingView::Failed(message@),
    }
}

struct WalkFrame {
    lines: Vec<ConfigLine>,
    next: usize,
    patterns: Vec<String>,
    next_pattern: usize,
    matches: Vec<String>,
    next_match: usize,
}

spec fn frame_view(f: WalkFrame) -> FrameView {
    FrameView {
        lines: f.lines@.map_values(|c: ConfigLine| line_view(c)),
        next: f.next as nat,
        patterns: string_views(f.patterns@),
        next_pattern: f.next_pattern as nat,
        matches: string_views(f.matches@),
        next_match: f.next_match as nat,
    }
}

enum Pending {
    Open { path: String, required: bool },
    Read(String),
    Expand(String),
    Finished,
    Failed(String),
}

spec fn pending_view(p: Pending) -> PendingView {
    match p {
        Pending::Open { path, required } => PendingView::Open(path@, required),
        Pending::Read(path) => PendingView::Read(path@),
        Pending::Expand(pattern) => PendingView::Expand(pattern@),
        Pending::Finished => PendingView::Finished,
        Pending::Failed(message) => PendingView::Failed(message@),
    }
}

/// The walk over a configuration file and the files it includes, collecting
/// the concrete `Host` aliases in the order they are declared. The caller does
/// the file system work that each step asks for and reports its outcome.
pub struct IncludeWalk {
    home: String,
    visited: Vec<String>,
    frames: Vec<WalkFrame>,
    aliases: AliasCollector,
    pending: Pending,
}

impl View for IncludeWalk {
    type V = WalkView;

    closed spec fn view(&self) -> WalkView {
        WalkView {
            home: self.home@,
            visited: string_views(self.visited@),
            frames: self.frames@.map_values(|f: WalkFrame| frame_view(f)),
            aliases: self.aliases@,
            pending: pending_view(self.pending),
        }
    }
}

fn clone_strings(v: &Vec<String>) -> (r: Vec<String>)
    ensures
        string_views(r@) == string_views(v@),
{
    let mut r: Vec<String> = Vec::new();
    for i in 0..v.len()
        invariant
            string_views(r@) == string_views(v@).take(i as int),
    {
        let ghost before = string_views(r@);
        r.push(v[i].clone());
        assert(string_views(r@) =~= before.push(v@[i as int]@));
        assert(string_views(v@).take(i + 1) =~= string_views(v@).take(i as int).push(v@[i as int]@));
    }
    assert(string_views(v@).take(v.len() as int) =~= string_views(v@));
    r
}

fn message(prefix: &str, subject: &str, error: &str) -> (m: String)
    ensures
        m@ == prefix@ + subject@ + "："@ + error@,
{
    let mut m = String::from_str(prefix);
    m.append(subject);
    m.append("：");
    m.append(error);
    m
}

impl IncludeWalk {
    /// The walk of the main configuration file `config_path`, for the home
    /// directory `home`; it first asks for that file.
    pub fn new(config_path: String, home: String) -> (w: Self)
        ensures
            w@ == walk_start(config_path@, home@),
    {
        let w = IncludeWalk {
            home,
            visited: Vec::new(),
            frames: Vec::new(),
            aliases: AliasCollector::new(),
            pending: Pending::Open { path: config_path, required: true },
        };
        assert(w@.visited =~= Seq::<Seq<char>>::empty());
        assert(w@.frames =~= Seq::<FrameView>::empty());
        w
    }

    /// What the walk asks for now.
    pub fn request(&self) -> (a: WalkAction)
        ensures
            action_shows(a, self@),
    {
        match &self.pending {
            Pending::Open { path, required } => WalkAction::Open { path: path.clone(), required: *required },
            Pending::Read(path) => WalkAction::Read(path.clone()),
            Pending::Expand(pattern) => WalkAction::Expand(include_target(pattern.as_str(), self.home.as_str())),
            Pending::Finished => WalkAction::Done(clone_strings(&self.aliases.aliases)),
            Pending::Failed(m) => WalkAction::Fail(m.clone()),
        }
    }

    fn advance(&mut self)
        ensures
            final(self)@ == walk_advance(old(self)@),
    {
        loop
            invariant_except_break
                walk_advance(self@) == walk_advance(old(self)@),
            ensures
                self@ == walk_advance(old(self)@),
            decreases self@.frames.len(), top_remaining(self@),
        {
            let ghost w = self@;
            let popped = self.frames.pop();
            match popped {
                None => {
                    self.pending = Pending::Finished;
                    assert(self@ == WalkView { pending: PendingView::Finished, ..w });
                    break;
                },
                Some(frame) => {
                    let mut f = frame;
                    let ghost fv = w.frames.last();
                    assert(frame_view(f) == fv);
                    assert(self@.frames =~= w.frames.drop_last());
                    if f.next_match < f.matches.len() {
                        let path = f.matches[f.next_match].clone();
                        assert(path@ == fv.matches[fv.next_match as int]);
                        f.next_match = f.next_match + 1;
                        let ghost gv = frame_view(f);
                        self.frames.push(f);
                        self.pending = Pending::Open { path, required: false };
                        assert(gv == FrameView { next_match: fv.next_match + 1, ..fv });
                        assert(self@.frames =~= w.frames.drop_last().push(gv));
                        break;
                    } else if f.next_pattern < f.patterns.len() {
                        let pattern = f.patterns[f.next_pattern].clone();
                        assert(pattern@ == fv.patterns[fv.next_pattern as int]);
                        f.next_pattern = f.next_pattern + 1;
                        let ghost gv = frame_view(f);
                        self.frames.push(f);
                        self.pending = Pending::Expand(pattern);
                        assert(gv == FrameView { next_pattern: fv.next_pattern + 1, ..fv });
                        assert(self@.frames =~= w.frames.drop_last().push(gv));
                        break;
                    } else if f.next < f.lines.len() {
                        let i = f.next;
                        assert(line_view(f.lines@[i as int]) == fv.lines[i as int]);
                        let followed: Option<Vec<String>> = match &f.lines[i] {
                            ConfigLine::Host(values) => {
                                self.aliases.add_host_values(values);
                                None
                            },
                            ConfigLine::Include(patterns) => Some(clone_strings(patterns)),
                            ConfigLine::Other => None,
                        };
                        f.next = i + 1;
                        match followed {
                            Some(patterns) => {
                                f.patterns = patterns;
                                f.next_pattern = 0;
                                f.matches = Vec::new();
                                f.next_match = 0;
                            },
                            None => {},
                        }
                        let ghost gv = frame_view(f);
                        self.frames.push(f);
                        assert(self@.frames =~= w.frames.drop_last().push(gv));
                        proof {
                            let line = fv.lines[i as int];
                            let g = FrameView { next: fv.next + 1, ..fv };
                            if line.0 == 2 {
                                assert(gv.matches =~= Seq::<Seq<char>>::empty());
                                assert(gv == FrameView {
                                    patterns: line.1,
                                    next_pattern: 0,
                                    matches: Seq::empty(),
                                    next_match: 0,
                                    ..g
                                });
                            } else {
                                assert(gv == g);
                            }
                        }
                    } else {
                        assert(walk_advance(self@) == walk_advance(w));
                    }
                },
            }
        }
    }

    /// Takes in the outcome of the work the walk asked for and says what it asks for next.
    pub fn step(&mut self, event: WalkEvent) -> (a: WalkAction)
        ensures
            final(self)@ == walk_step(old(self)@, event),
            action_shows(a, final(self)@),
    {
        let ghost w = self@;
        let ghost e = event;
        let mut pending = Pending::Finished;
        std::mem::swap(&mut pending, &mut self.pending);
        match pending {
            Pending::Open { path, required } => {
                match event {
                    WalkEvent::Canonical(c) => {
                        if contains_string(&self.visited, &c) {
                            self.pending = Pending::Open { path, required };
                            assert(self@ == w);
                            self.advance();
                        } else {
                            let ghost before = string_views(self.visited@);
                            self.visited.push(c.clone());
                            assert(string_views(self.visited@) =~= before.push(c@));
                            self.pending = Pending::Read(c);
                        }
                    },
                    WalkEvent::NotFound(error) => {
                        if required {
                            self.pending = Pending::Failed(message("无法打开 ", path.as_str(), error.as_str()));
                        } else {
                            self.pending = Pending::Open { path, required };
                            assert(self@ == w);
                            self.advance();
                        }
                    },
                    WalkEvent::OpenFailed(error) => {
                        self.pending = Pending::Failed(message("无法打开 ", path.as_str(), error.as_str()));
                    },
                    _ => {
                        self.pending = Pending::Open { path, required };
                    },
                }
            },
            Pending::Read(path) => {
                match event {
                    WalkEvent::Contents(text) => {
                        let ls = classify_lines(text.as_str());
                        let frame = WalkFrame {
                            lines: ls,
                            next: 0,
                            patterns: Vec::new(),
                            next_pattern: 0,
                            matches: Vec::new(),
                            next_match: 0,
                        };
                        proof {
                            assert forall|k: int| 0 <= k < frame.lines@.len() implies line_view(
                                #[trigger] frame.lines@[k],
                            ) == spec_classify_line(lines(text@)[k]) by {
                                lemma_line_view(frame.lines@[k], lines(text@)[k]);
                            }
                            assert(frame_view(frame).lines =~= new_frame(text@).lines);
                            assert(frame_view(frame).patterns =~= Seq::<Seq<char>>::empty());
                            assert(frame_view(frame).matches =~= Seq::<Seq<char>>::empty());
                        }
                        let ghost fv = frame_view(frame);
                        self.frames.push(frame);
                        self.pending = Pending::Read(path);
                        assert(self@.frames =~= w.frames.push(fv));
                        assert(self@ == WalkView { frames: w.frames.push(new_frame(text@)), ..w });
                        self.advance();
                    },
                    WalkEvent::ReadFailed(error) => {
                        self.pending = Pending::Failed(message("无法读取 ", path.as_str(), error.as_str()));
                    },
                    _ => {
                        self.pending = Pending::Read(path);
                    },
                }
            },
            Pending::Expand(pattern) => {
                match event {
                    WalkEvent::Expanded(matches) => {
                        self.pending = Pending::Expand(pattern);
                        let popped = self.frames.pop();
                        match popped {
                            Some(frame) => {
                                let mut f = frame;
                                let ghost fv = w.frames.last();
                                assert(frame_view(f) == fv);
                                let ghost mv = string_views(matches@);
                                f.matches = matches;
                                f.next_match = 0;
                                let ghost gv = frame_view(f);
                                assert(gv == FrameView { matches: mv, next_match: 0, ..fv });
                                self.frames.push(f);
                                assert(self@.frames =~= w.frames.drop_last().push(gv));
                            },
                            None => {},
                        }
                        assert(self@ == with_matches(w, string_views(e->Expanded_0@)));
                        self.advance();
                    },
                    WalkEvent::BadPattern { pattern: expanded, error } => {
                        self.pending = Pending::Failed(
                            message("SSH Include 模式无效 ", expanded.as_str(), error.as_str()),
                        );
                    },
                    _ => {
                        self.pending = Pending::Expand(pattern);
                    },
                }
            },
            Pending::Finished => {
                self.pending = Pending::Finished;
            },
            Pending::Failed(m) => {
                self.pending = Pending::Failed(m);
            },
        }
        self.request()
    }
}

/// The aliases collected are concrete and distinct, those collected before
/// stay first, and every concrete value of a `Host` line ends up among them.
pub proof fn collected_aliases_are_concrete_and_distinct(aliases: Seq<Seq<char>>, values: Seq<Seq<char>>)
    requires
        aliases.no_duplicates(),
        forall|i: int| 0 <= i < aliases.len() ==> spec_is_concrete_alias(#[trigger] aliases[i]),
    ensures
        add_aliases(aliases, values).no_duplicates(),
        forall|i: int| 0 <= i < add_aliases(aliases, values).len() ==> spec_is_concrete_alias(
            #[trigger] add_aliases(aliases, values)[i],
        ),
        aliases.is_prefix_of(add_aliases(aliases, values)),
        forall|i: int| 0 <= i < values.len() && spec_is_concrete_alias(#[trigger] values[i]) ==> add_aliases(
            aliases,
            values,
        ).contains(values[i]),
    decreases values.len(),
{
    if values.len() > 0 {
        let rest = values.drop_last();
        collected_aliases_are_concrete_and_distinct(aliases, rest);
        let before = add_aliases(aliases, rest);
        let v = values.last();
        let after = add_aliases(aliases, values);
        assert forall|i: int| 0 <= i < values.len() && spec_is_concrete_alias(#[trigger] values[i]) implies after.contains(values[i]) by {
            if i < values.len() - 1 {
                assert(rest[i] == values[i]);
                let j = choose|j: int| 0 <= j < before.len() && before[j] == values[i];
                if spec_is_concrete_alias(v) && !before.contains(v) {
                    assert(after[j] == values[i]);
                }
            } else if !before.contains(v) {
                assert(after.last() == v);
            }
        }
        if spec_is_concrete_alias(v) && !before.contains(v) {
            assert forall|i: int, j: int| 0 <= i < after.len() && 0 <= j < after.len() && i != j implies after[i] != after[j] by {
                if i == after.len() - 1 {
                    assert(!before.contains(after[j]) ==> after[i] != after[j]);
                    if j < before.len() {
                        assert(before[j] == after[j]);
                    }
                } else if j == after.len() - 1 {
                    if i < before.len() {
                        assert(before[i] == after[i]);
                    }
                }
            }
            assert(aliases.is_prefix_of(after)) by {
                assert forall|i: int| 0 <= i < aliases.len() implies aliases[i] == after[i] by {
                    assert(before[i] == aliases[i]);
                }
            }
        }
    }
}

/// Every alias of an import is accounted for exactly once: it either resolved
/// to a connection or gave a warning, so the two counts that an import reports
/// add up to the number of aliases.
pub proof fn every_alias_resolves_or_warns(aliases: Seq<Seq<char>>, results: Seq<Result<SshConnection, String>>)
    requires
        aliases.len() == results.len(),
    ensures
        ok_connections(results).len() + warning_texts(aliases, results).len() == aliases.len(),
    decreases results.len(),
{
    if results.len() > 0 {
        every_alias_resolves_or_warns(aliases.drop_last(), results.drop_last());
        lemma_warning_texts_prefix(aliases, results.drop_last());
    }
}

/// Warnings only look at the aliases up to the results they come with.
proof fn lemma_warning_texts_prefix(aliases: Seq<Seq<char>>, results: Seq<Result<SshConnection, String>>)
    requires
        results.len() < aliases.len(),
    ensures
        warning_texts(aliases.drop_last(), results) == warning_texts(aliases, results),
    decreases results.len(),
{
    if results.len() > 0 {
        lemma_warning_texts_prefix(aliases, results.drop_last());
    }
}

/// Whether the aliases are concrete and each appears once.
pub open spec fn aliases_ok(aliases: Seq<Seq<char>>) -> bool {
    &&& aliases.no_duplicates()
    &&& forall|i: int| 0 <= i < aliases.len() ==> spec_is_concrete_alias(#[trigger] aliases[i])
}

proof fn lemma_advance_keeps(w: WalkView)
    requires
        aliases_ok(w.aliases),
    ensures
        walk_advance(w).visited == w.visited,
        walk_advance(w).home == w.home,
        aliases_ok(walk_advance(w).aliases),
        w.aliases.is_prefix_of(walk_advance(w).aliases),
        !(walk_advance(w).pending is Read),
    decreases w.frames.len(), top_remaining(w),
{
    if w.frames.len() > 0 {
        let f = w.frames.last();
        let rest = w.frames.drop_last();
        if f.next_match < f.matches.len() {
        } else if f.next_pattern < f.patterns.len() {
        } else if f.next < f.lines.len() {
            let line = f.lines[f.next as int];
            let g = FrameView { next: f.next + 1, ..f };
            if line.0 == 1 {
                let v = WalkView { frames: rest.push(g), aliases: add_aliases(w.aliases, line.1), ..w };
                collected_aliases_are_concrete_and_distinct(w.aliases, line.1);
                lemma_advance_keeps(v);
            } else if line.0 == 2 {
                lemma_advance_keeps(
                    WalkView {
                        frames: rest.push(
                            FrameView { patterns: line.1, next_pattern: 0, matches: Seq::empty(), next_match: 0, ..g },
                        ),
                        ..w
                    },
                );
            } else {
                lemma_advance_keeps(WalkView { frames: rest.push(g), ..w });
            }
        } else {
            lemma_advance_keeps(WalkView { frames: rest, ..w });
        }
    }
}

/// A file that the walk opened before (by its canonical path) is skipped, so
/// that include cycles end: the walk carries on exactly as it does for an
/// included file that does not exist.
pub proof fn a_file_seen_before_is_skipped(w: WalkView, canonical: String, error: String)
    requires
        w.pending matches PendingView::Open(_, required) && !required,
        w.visited.contains(canonical@),
    ensures
        walk_step(w, WalkEvent::Canonical(canonical)) == walk_advance(w),
        walk_step(w, WalkEvent::Canonical(canonical)) == walk_step(w, WalkEvent::NotFound(error)),
{
}

/// No file is read twice: the walk asks to read a file only when its canonical
/// path was not read before, and the paths it read stay distinct. The aliases
/// stay concrete and distinct, and those found earlier stay first.
pub proof fn no_file_is_read_twice(w: WalkView, e: WalkEvent)
    requires
        w.visited.no_duplicates(),
        aliases_ok(w.aliases),
    ensures
        walk_step(w, e).visited.no_duplicates(),
        w.pending is Open ==> (walk_step(w, e).pending matches PendingView::Read(c) ==> !w.visited.contains(c)),
        aliases_ok(walk_step(w, e).aliases),
        w.aliases.is_prefix_of(walk_step(w, e).aliases),
{
    assert(w.aliases.is_prefix_of(w.aliases));
    lemma_advance_keeps(w);
    match w.pending {
        PendingView::Open(path, required) => {
            if let WalkEvent::Canonical(c) = e {
                if !w.visited.contains(c@) {
                    let v = w.visited.push(c@);
                    assert forall|i: int, j: int| 0 <= i < v.len() && 0 <= j < v.len() && i != j implies v[i] != v[j] by {
                        if i == v.len() - 1 {
                            assert(w.visited[j] == v[j]);
                        } else if j == v.len() - 1 {
                            assert(w.visited[i] == v[i]);
                        }
                    }
                }
            }
        },
        PendingView::Read(path) => {
            if let WalkEvent::Contents(text) = e {
                lemma_advance_keeps(WalkView { frames: w.frames.push(new_frame(text@)), ..w });
            }
        },
        PendingView::Expand(_) => {
            if let WalkEvent::Expanded(matches) = e {
                lemma_advance_keeps(with_matches(w, string_views(matches@)));
            }
        },
        _ => {},
    }
}

/// The words of `s` from index `i` on when white space alone separates them,
/// given the words already complete and the word being built.
pub open spec fn fields_from(s: Seq<char>, i: int, words: Seq<Seq<char>>, cur: Seq<char>) -> Seq<Seq<char>>
    decreases s.len() - i,
{
    if i >= s.len() {
        if cur.len() > 0 {
            words.push(cur)
        } else {
            words
        }
    } else if is_space(s[i]) {
        if cur.len() > 0 {
            fields_from(s, i + 1, words.push(cur), Seq::empty())
        } else {
            fields_from(s, i + 1, words, cur)
        }
    } else {
        fields_from(s, i + 1, words, cur.push(s[i]))
    }
}

/// `s.split_whitespace()`: the maximal runs of characters that are not white space.
pub open spec fn split_whitespace(s: Seq<char>) -> Seq<Seq<char>> {
    fields_from(s, 0, Seq::empty(), Seq::empty())
}

/// Whether `s` holds neither quote nor backslash.
pub open spec fn unquoted(s: Seq<char>) -> bool {
    forall|i: int| 0 <= i < s.len() ==> s[i] != '"' && s[i] != '\'' && s[i] != '\\'
}

/// Whether every word is non-empty and holds no white space.
pub open spec fn plain_words(words: Seq<Seq<char>>) -> bool {
    forall|k: int| 0 <= k < words.len() ==> #[trigger] words[k].len() > 0 && (forall|j: int|
        0 <= j < words[k].len() ==> !is_space(words[k][j]))
}

proof fn lemma_unquoted_words(s: Seq<char>, i: int, words: Seq<Seq<char>>, cur: Seq<char>)
    requires
        0 <= i,
        unquoted(s),
    ensures
        words_from(s, i, words, cur, None) == fields_from(s, i, words, cur),
    decreases s.len() - i,
{
    if i < s.len() {
        if is_space(s[i]) {
            if cur.len() > 0 {
                lemma_unquoted_words(s, i + 1, words.push(cur), Seq::empty());
            } else {
                lemma_unquoted_words(s, i + 1, words, cur);
            }
        } else {
            lemma_unquoted_words(s, i + 1, words, cur.push(s[i]));
        }
    }
}

proof fn lemma_fields_plain(s: Seq<char>, i: int, words: Seq<Seq<char>>, cur: Seq<char>)
    requires
        0 <= i,
        plain_words(words),
        forall|j: int| 0 <= j < cur.len() ==> !is_space(cur[j]),
    ensures
        plain_words(fields_from(s, i, words, cur)),
    decreases s.len() - i,
{
    if i >= s.len() {
        if cur.len() > 0 {
            assert(plain_words(words.push(cur))) by {
                assert forall|k: int| 0 <= k < words.push(cur).len() implies #[trigger] words.push(cur)[k].len() > 0
                    && (forall|j: int| 0 <= j < words.push(cur)[k].len() ==> !is_space(words.push(cur)[k][j])) by {
                    if k < words.len() {
                        assert(words.push(cur)[k] == words[k]);
                    }
                }
            }
        }
    } else if is_space(s[i]) {
        if cur.len() > 0 {
            assert(plain_words(words.push(cur))) by {
                assert forall|k: int| 0 <= k < words.push(cur).len() implies #[trigger] words.push(cur)[k].len() > 0
                    && (forall|j: int| 0 <= j < words.push(cur)[k].len() ==> !is_space(words.push(cur)[k][j])) by {
                    if k < words.len() {
                        assert(words.push(cur)[k] == words[k]);
                    }
                }
            }
            lemma_fields_plain(s, i + 1, words.push(cur), Seq::empty());
        } else {
            lemma_fields_plain(s, i + 1, words, cur);
        }
    } else {
        let next = cur.push(s[i]);
        assert forall|j: int| 0 <= j < next.len() implies !is_space(next[j]) by {
            if j < cur.len() {
                assert(next[j] == cur[j]);
            }
        }
        lemma_fields_plain(s, i + 1, words, next);
    }
}

/// Without quotes and backslashes, an argument list is split at white space
/// alone: its words are the runs of other characters, none of them empty.
pub proof fn unquoted_words_split_at_white_space(s: Seq<char>)
    requires
        unquoted(s),
    ensures
        spec_split_words(s) == split_whitespace(s),
        plain_words(spec_split_words(s)),
{
    lemma_unquoted_words(s, 0, Seq::empty(), Seq::empty());
    lemma_fields_plain(s, 0, Seq::empty(), Seq::empty());
}

/// The walk after `n` opened files in turn turned out not to exist.
pub open spec fn skip_missing(w: WalkView, n: nat, error: String) -> WalkView
    decreases n,
{
    if n == 0 {
        w
    } else {
        walk_step(skip_missing(w, (n - 1) as nat, error), WalkEvent::NotFound(error))
    }
}

/// Every file that an `Include` pattern matched is opened, one after the
/// other in the given order: right after the matches come back the walk asks
/// for the first, and each time an included file is done with (here: it
/// turned out not to exist) it asks for the next, until all were asked for.
pub proof fn every_match_is_opened_in_turn(w: WalkView, matches: Vec<String>, error: String, i: nat)
    requires
        w.pending is Expand,
        w.frames.len() > 0,
        i < matches@.len(),
    ensures
        skip_missing(walk_step(w, WalkEvent::Expanded(matches)), i, error).pending == PendingView::Open(
            matches@[i as int]@,
            false,
        ),
{
    lemma_skip_missing_state(w, matches, error, i);
}

proof fn lemma_skip_missing_state(w: WalkView, matches: Vec<String>, error: String, i: nat)
    requires
        w.pending is Expand,
        w.frames.len() > 0,
        i < matches@.len(),
    ensures
        skip_missing(walk_step(w, WalkEvent::Expanded(matches)), i, error) == (WalkView {
            frames: w.frames.drop_last().push(
                FrameView { matches: string_views(matches@), next_match: i + 1, ..w.frames.last() },
            ),
            pending: PendingView::Open(matches@[i as int]@, false),
            ..w
        }),
    decreases i,
{
    let mv = string_views(matches@);
    let top = FrameView { matches: mv, next_match: 0, ..w.frames.last() };
    let v = WalkView { frames: w.frames.drop_last().push(top), ..w };
    assert(with_matches(w, mv) == v);
    assert(v.frames.last() == top);
    assert(v.frames.drop_last() =~= w.frames.drop_last());
    if i > 0 {
        lemma_skip_missing_state(w, matches, error, (i - 1) as nat);
        let prev = skip_missing(walk_step(w, WalkEvent::Expanded(matches)), (i - 1) as nat, error);
        let ptop = FrameView { matches: mv, next_match: i as nat, ..w.frames.last() };
        assert(prev.frames.last() == ptop);
        assert(prev.frames.drop_last() =~= w.frames.drop_last());
    }
}

} // verus!
