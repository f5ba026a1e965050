//! Detection rules.
//!
//! Each rule is a pure function of one event plus the facts already established
//! about the process that emitted it. A rule decides nothing. It returns evidence: a
//! pair of conditional probabilities, how often it fires when the host is
//! compromised and how often it fires when it is not.
use crate::likelihood::{clamped, evidence, Likelihood};
use crate::model::event::TelemetryEvent;
use crate::model::kind::{EventKind, ProcessStart, WmiProcess};
use crate::text::{
    chars_of, concat, concat3, contains, copy_range, decimal, decimal_text, ends_with,
    find_from, find_last, folded, folded_chars, index_from, is_white, last_of, occurs, occurs_at, same, starts_with,
    text_of, white,
};
use vstd::prelude::*;

verus! {

/// Interpreters that are suspicious when they are the child.
pub const INTERPRETERS: [&'static str; 10] = [
    "cmd.exe",
    "powershell.exe",
    "pwsh.exe",
    "wscript.exe",
    "cscript.exe",
    "mshta.exe",
    "rundll32.exe",
    "regsvr32.exe",
    "certutil.exe",
    "bitsadmin.exe",
];

/// Host applications widely used as a first stage because they are trusted and
/// already running.
pub const OFFICE_AND_BROWSERS: [&'static str; 9] = [
    "winword.exe",
    "excel.exe",
    "powerpnt.exe",
    "outlook.exe",
    "msaccess.exe",
    "acrord32.exe",
    "chrome.exe",
    "firefox.exe",
    "msedge.exe",
];

/// Names that a binary is only allowed to have in `System32`.
pub const SYSTEM_NAMES: [&'static str; 11] = [
    "svchost",
    "lsass",
    "csrss",
    "winlogon",
    "services",
    "smss",
    "wininit",
    "explorer",
    "taskhostw",
    "spoolsv",
    "dllhost",
];

/// Signed Windows binaries that are routinely abused.
pub const LOLBINS: [&'static str; 10] = [
    "certutil",
    "bitsadmin",
    "regsvr32",
    "rundll32",
    "mshta",
    "wmic",
    "msbuild",
    "installutil",
    "regasm",
    "regsvcs",
];

/// Top-level domains with abuse rates far above their share of the namespace.
pub const HIGH_ABUSE_TLDS: [&'static str; 10] = [
    ".top",
    ".xyz",
    ".tk",
    ".ml",
    ".ga",
    ".cf",
    ".gq",
    ".work",
    ".click",
    ".zip",
];

/// Path fragments of places an ordinary user can write to.
pub const WRITABLE_MARKERS: [&'static str; 7] = [
    "\\temp\\",
    "\\tmp\\",
    "\\appdata\\",
    "\\downloads\\",
    "\\public\\",
    "\\programdata\\",
    "\\users\\",
];

/// Patterns that exist to make a script unreadable rather than to do work.
pub const OBFUSCATION_MARKERS: [&'static str; 10] = [
    "frombase64string",
    "invoke-expression",
    "iex(",
    "iex ",
    "|iex",
    "[scriptblock]::create",
    "-bxor",
    "-join[char",
    "[char[]]",
    "[text.encoding]::",
];

/// Ways a script reaches out for something it will then run.
pub const REMOTE_FETCH_MARKERS: [&'static str; 9] = [
    "downloadstring",
    "downloaddata",
    "downloadfile",
    "net.webclient",
    "start-bitstransfer",
    "invoke-webrequest",
    "invoke-restmethod",
    "wget ",
    "curl ",
];

/// Attempts to switch the defences off from inside a script.
pub const DEFENCE_EVASION_MARKERS: [&'static str; 10] = [
    "amsiutils",
    "amsiinitfailed",
    "amsiscanbuffer",
    "set-mppreference",
    "add-mppreference",
    "exclusionpath",
    "exclusionprocess",
    "disableantispyware",
    "disablebehaviormonitoring",
    "disableioavprotection",
];

/// Extensions that something on a stock host will run when handed the path.
pub const EXECUTABLE_EXTENSIONS: [&'static str; 16] = [
    ".exe",
    ".dll",
    ".scr",
    ".sys",
    ".ps1",
    ".bat",
    ".cmd",
    ".vbs",
    ".vbe",
    ".js",
    ".jse",
    ".hta",
    ".lnk",
    ".wsf",
    ".msi",
    ".cpl",
];

/// Arguments that hand a shell an encoded command.
pub const ENCODED_FLAGS: [&'static str; 4] = [
    "-encodedcommand",
    "-enc ",
    "-e ",
    "-ec ",
];

/// Arguments that hide a shell's window.
pub const HIDDEN_FLAGS: [&'static str; 2] = [
    "-windowstyle hidden",
    "-w hidden",
];

/// Arguments that are an encoded command whatever follows them.
pub const ENCODED_ARGUMENTS: [&'static str; 2] = [
    "-encodedcommand",
    "-encodedarguments",
];

/// Arguments that are an encoded command where a base64 blob follows them.
pub const ENCODED_MARKERS: [&'static str; 4] = [
    "-enc ",
    "-enc(",
    "-ec ",
    "-en ",
];

/// Fragments of a command line that reach for something remote.
pub const REMOTE_ARGUMENTS: [&'static str; 5] = [
    "http://",
    "https://",
    "urlcache",
    "/i:http",
    "ftp://",
];

/// Registry keys whose values survive a logon.
pub const PERSISTENCE_KEYS: [&'static str; 4] = [
    "\\currentversion\\run",
    "\\currentversion\\runonce",
    "\\winlogon\\shell",
    "\\currentversion\\explorer\\shell folders",
];

/// WMI consumers that can run supplied code.
pub const CODE_CONSUMERS: [&'static str; 2] = [
    "commandlineeventconsumer",
    "activescripteventconsumer",
];

/// Words a task uses to sound like a Windows component.
pub const WINDOWS_WORDS: [&'static str; 3] = [
    "microsoft",
    "windows",
    "defender",
];

/// The PowerShell interpreters.
pub const POWERSHELLS: [&'static str; 2] = [
    "powershell.exe",
    "pwsh.exe",
];

/// How long a base64-looking run has to be before it is an encoded command
/// rather than a word that happens to follow `-enc`.
pub const MIN_ENCODED_BLOB: usize = 20;

/// The most characters of an image an alert body quotes.
pub const IMAGE_CAP: usize = 80;

/// One piece of evidence, with the rule that produced it.
#[derive(Debug, Clone, PartialEq)]
pub struct Finding {
    pub rule: &'static str,
    /// MITRE ATT&CK technique, for the alert body.
    pub technique: &'static str,
    pub likelihood: Likelihood,
    /// Human-readable reason. Minimised before it leaves the host.
    pub detail: String,
}

/// One piece of evidence, as mathematics.
pub struct Evidence {
    pub rule: Seq<char>,
    pub technique: Seq<char>,
    pub likelihood: Likelihood,
    pub detail: Seq<char>,
}

/// Facts about the emitting process.
#[derive(Debug, Clone, Default)]
pub struct Facts<'a> {
    pub image: Option<&'a str>,
    pub command_line: Option<&'a str>,
    pub parent_image: Option<&'a str>,
    /// Whether this image has never been seen on this host before.
    pub image_is_novel: bool,
    /// How many other children the parent has already produced.
    pub siblings: u32,
}

/// Facts about the emitting process, as mathematics.
pub struct Known {
    pub image: Option<Seq<char>>,
    pub command_line: Option<Seq<char>>,
    pub parent_image: Option<Seq<char>>,
    pub image_is_novel: bool,
    pub siblings: nat,
}

/// The characters of an optional borrowed text.
pub open spec fn optional_chars(text: Option<&str>) -> Option<Seq<char>> {
    match text {
        Some(s) => Some(s@),
        None => None,
    }
}

impl<'a> Facts<'a> {
    pub open spec fn known(&self) -> Known {
        Known {
            image: optional_chars(self.image),
            command_line: optional_chars(self.command_line),
            parent_image: optional_chars(self.parent_image),
            image_is_novel: self.image_is_novel,
            siblings: self.siblings as nat,
        }
    }
}

impl Finding {
    pub open spec fn says(&self) -> Evidence {
        Evidence {
            rule: self.rule@,
            technique: self.technique@,
            likelihood: self.likelihood,
            detail: self.detail@,
        }
    }
}

/// What a rule that may have fired says.
pub open spec fn says(found: Option<Finding>) -> Option<Evidence> {
    match found {
        Some(finding) => Some(finding.says()),
        None => None,
    }
}

/// What a list of findings says.
pub open spec fn all_say(findings: Seq<Finding>) -> Seq<Evidence> {
    findings.map_values(|f: Finding| f.says())
}

/// A rule's outcome as a list of at most one.
pub open spec fn listed(said: Option<Evidence>) -> Seq<Evidence> {
    match said {
        Some(evidence) => seq![evidence],
        None => seq![],
    }
}

/// Evidence with its probabilities in ten-thousandths.
pub open spec fn evidence_of(
    rule: Seq<char>,
    technique: Seq<char>,
    hit: u32,
    miss: u32,
    detail: Seq<char>,
) -> Evidence {
    Evidence {
        rule,
        technique,
        likelihood: Likelihood { hit: clamped(hit), miss: clamped(miss) },
        detail,
    }
}

fn finding(
    rule: &'static str,
    technique: &'static str,
    hit: u32,
    miss: u32,
    detail: String,
) -> (found: Finding)
    ensures
        found.says() == evidence_of(rule@, technique@, hit, miss, detail@),
{
    Finding { rule, technique, likelihood: evidence(hit, miss), detail }
}

/// Whether a text is one of a table's.
pub open spec fn in_table(table: Seq<&'static str>, text: Seq<char>) -> bool {
    exists|i: int| 0 <= i < table.len() && (#[trigger] table[i])@ == text
}

/// Whether some entry of a table stands in a text.
pub open spec fn any_occurs(table: Seq<&'static str>, text: Seq<char>) -> bool {
    exists|i: int| 0 <= i < table.len() && occurs(text, (#[trigger] table[i])@)
}

/// Whether a text ends with some entry of a table.
pub open spec fn any_ends(table: Seq<&'static str>, text: Seq<char>) -> bool {
    exists|i: int|
        0 <= i < table.len() && occurs_at(
            text,
            (#[trigger] table[i])@,
            text.len() - table[i]@.len(),
        )
}

/// The first entry of a table that stands in a text.
pub open spec fn first_occurring(table: Seq<&'static str>, text: Seq<char>) -> Option<Seq<char>>
    decreases table.len(),
{
    if table.len() == 0 {
        None
    } else if occurs(text, table[0]@) {
        Some(table[0]@)
    } else {
        first_occurring(table.drop_first(), text)
    }
}

fn is_in_table<const N: usize>(table: &[&'static str; N], text: &[char]) -> (yes: bool)
    ensures
        yes == in_table(table@, text@),
{
    let held = text_of(text);
    let mut i: usize = 0;
    while i < N
        invariant
            i <= N,
            held@ == text@,
            forall|k: int| 0 <= k < i ==> (#[trigger] table@[k])@ != text@,
        decreases N - i,
    {
        if same(table[i], held.as_str()) {
            return true;
        }
        i += 1;
    }
    false
}

fn contains_any<const N: usize>(table: &[&'static str; N], text: &[char]) -> (yes: bool)
    ensures
        yes == any_occurs(table@, text@),
{
    let mut i: usize = 0;
    while i < N
        invariant
            i <= N,
            forall|k: int| 0 <= k < i ==> !occurs(text@, (#[trigger] table@[k])@),
        decreases N - i,
    {
        if contains(text, chars_of(table[i]).as_slice()) {
            assert(occurs(text@, table@[i as int]@));
            return true;
        }
        i += 1;
    }
    false
}

fn ends_with_any<const N: usize>(table: &[&'static str; N], text: &[char]) -> (yes: bool)
    ensures
        yes == any_ends(table@, text@),
{
    let mut i: usize = 0;
    while i < N
        invariant
            i <= N,
            forall|k: int|
                0 <= k < i ==> !occurs_at(
                    text@,
                    (#[trigger] table@[k])@,
                    text@.len() - table@[k]@.len(),
                ),
        decreases N - i,
    {
        if ends_with(text, chars_of(table[i]).as_slice()) {
            assert(occurs_at(text@, table@[i as int]@, text@.len() - table@[i as int]@.len()));
            return true;
        }
        i += 1;
    }
    false
}

fn first_contained<const N: usize>(table: &[&'static str; N], text: &[char]) -> (found: Option<
    &'static str,
>)
    ensures
        match found {
            Some(marker) => first_occurring(table@, text@) == Some(marker@),
            None => first_occurring(table@, text@) is None,
        },
{
    let ghost all = table@;
    let mut i: usize = 0;
    assert(all.skip(0) == all);
    while i < N
        invariant
            i <= N,
            all == table@,
            all.len() == N,
            first_occurring(all, text@) == first_occurring(all.skip(i as int), text@),
        decreases N - i,
    {
        assert(all.skip(i as int)[0] == all[i as int]);
        assert(all.skip(i as int).drop_first() == all.skip(i + 1));
        if contains(text, chars_of(table[i]).as_slice()) {
            return Some(table[i]);
        }
        i += 1;
    }
    None
}

/// The final component of a path, folded to lower case.
pub open spec fn base_name_of(path: Seq<char>) -> Seq<char> {
    folded(path).skip(last_of(folded(path), '\\', '/') + 1)
}

/// The final component of a path without its extension, folded to lower case.
pub open spec fn stem_of(path: Seq<char>) -> Seq<char> {
    let name = base_name_of(path);
    let dot = last_of(name, '.', '.');
    if dot < 0 {
        name
    } else {
        name.take(dot)
    }
}

/// Whether a location is one an ordinary user can write to.
pub open spec fn writable(path: Seq<char>) -> bool {
    any_occurs(WRITABLE_MARKERS@, folded(path))
}

fn base_name(path: &str) -> (name: Vec<char>)
    ensures
        name@ == base_name_of(path@),
{
    let lower = folded_chars(path);
    let from: usize = find_last(lower.as_slice(), '\\', '/');
    let name = copy_range(lower.as_slice(), from, lower.len());
    assert(name@ == lower@.skip(from as int));
    name
}

fn stem(path: &str) -> (name: Vec<char>)
    ensures
        name@ == stem_of(path@),
{
    let name = base_name(path);
    let after: usize = find_last(name.as_slice(), '.', '.');
    if after == 0 {
        name
    } else {
        let front = copy_range(name.as_slice(), 0, after - 1);
        assert(front@ == name@.take(after - 1));
        front
    }
}

/// Whether a location is one an ordinary user can write to.
///
/// Several real system binaries do not live in `System32` at all, so "not in
/// System32" is no signal. "Runnable from somewhere the user can write" is.
pub fn in_writable_location(path: &str) -> (yes: bool)
    ensures
        yes == writable(path@),
{
    contains_any(&WRITABLE_MARKERS, folded_chars(path).as_slice())
}

/// The image of a process start: the established one, or the event's own.
pub open spec fn image_of(start: ProcessStart, facts: Known) -> Seq<char> {
    match facts.image {
        Some(image) => image,
        None => start.executable@,
    }
}

/// The command line of a process start: the established one, or the event's own.
pub open spec fn command_of(start: ProcessStart, facts: Known) -> Option<Seq<char>> {
    match facts.command_line {
        Some(command) => Some(command),
        None => match start.command_line {
            Some(command) => Some(command@),
            None => None,
        },
    }
}

fn image_text<'a>(start: &'a ProcessStart, facts: &'a Facts<'_>) -> (image: &'a str)
    ensures
        image@ == image_of(*start, facts.known()),
{
    match facts.image {
        Some(image) => image,
        None => start.executable.as_str(),
    }
}

fn command_text<'a>(start: &'a ProcessStart, facts: &'a Facts<'_>) -> (command: Option<&'a str>)
    ensures
        match command {
            Some(text) => command_of(*start, facts.known()) == Some(text@),
            None => command_of(*start, facts.known()) is None,
        },
{
    match facts.command_line {
        Some(command) => Some(command),
        None => match &start.command_line {
            Some(command) => Some(command.as_str()),
            None => None,
        },
    }
}

/// Whether a character can stand in base64.
pub open spec fn base64_char(c: char) -> bool {
    ||| 'a' <= c && c <= 'z'
    ||| 'A' <= c && c <= 'Z'
    ||| '0' <= c && c <= '9'
    ||| c == '+'
    ||| c == '/'
    ||| c == '='
}

/// Whether a character ends a blob.
pub open spec fn blob_end(c: char) -> bool {
    white(c) || c == '\'' || c == '"'
}

/// Where the white space that starts at `from` ends.
pub open spec fn skip_white(s: Seq<char>, from: int) -> int
    decreases s.len() - from,
{
    if 0 <= from < s.len() && white(s[from]) {
        skip_white(s, from + 1)
    } else {
        from
    }
}

/// Where the blob that starts at `from` ends.
pub open spec fn blob_to(s: Seq<char>, from: int) -> int
    decreases s.len() - from,
{
    if 0 <= from < s.len() && !blob_end(s[from]) {
        blob_to(s, from + 1)
    } else {
        from
    }
}

/// Whether a long enough run of base64 follows, after white space, at `from`.
pub open spec fn blob_at(s: Seq<char>, from: int) -> bool {
    let start = skip_white(s, from);
    let end = blob_to(s, start);
    end - start >= MIN_ENCODED_BLOB && forall|i: int|
        start <= i < end ==> base64_char(#[trigger] s[i])
}

/// Whether a marker that needs a blob has one behind it somewhere.
pub open spec fn marked_blob(s: Seq<char>, marker: Seq<char>) -> bool {
    exists|i: int| #[trigger] occurs_at(s, marker, i) && blob_at(s, i + marker.len())
}

/// Whether a folded text hands the interpreter an encoded command.
pub open spec fn encoded_command(s: Seq<char>) -> bool {
    any_occurs(ENCODED_ARGUMENTS@, s) || exists|m: int|
        0 <= m < 4 && marked_blob(s, (#[trigger] ENCODED_MARKERS@[m])@)
}

fn is_base64(c: char) -> (yes: bool)
    ensures
        yes == base64_char(c),
{
    ('a' <= c && c <= 'z') || ('A' <= c && c <= 'Z') || ('0' <= c && c <= '9') || c == '+' || c
        == '/' || c == '='
}

fn has_blob(s: &[char], from: usize) -> (yes: bool)
    requires
        from <= s@.len(),
    ensures
        yes == blob_at(s@, from as int),
{
    let mut start: usize = from;
    while start < s.len() && is_white(s[start])
        invariant
            from <= start <= s@.len(),
            skip_white(s@, from as int) == skip_white(s@, start as int),
        decreases s@.len() - start,
    {
        start += 1;
    }
    let mut end: usize = start;
    let mut plain = true;
    while end < s.len() && !(is_white(s[end]) || s[end] == '\'' || s[end] == '"')
        invariant
            start <= end <= s@.len(),
            blob_to(s@, start as int) == blob_to(s@, end as int),
            plain == (forall|i: int| start <= i < end ==> base64_char(#[trigger] s@[i])),
        decreases s@.len() - end,
    {
        if !is_base64(s[end]) {
            assert(!base64_char(s@[end as int]));
            plain = false;
        }
        end += 1;
    }
    end - start >= MIN_ENCODED_BLOB && plain
}

fn has_marked_blob(s: &[char], marker: &[char]) -> (yes: bool)
    ensures
        yes == marked_blob(s@, marker@),
{
    let mut i: usize = 0;
    while i < s.len()
        invariant
            i <= s@.len(),
            forall|k: int|
                0 <= k < i ==> !(#[trigger] occurs_at(s@, marker@, k) && blob_at(
                    s@,
                    k + marker@.len(),
                )),
        decreases s@.len() - i,
    {
        if crate::text::found_at(s, marker, i) {
            if has_blob(s, i + marker.len()) {
                return true;
            }
        }
        i += 1;
    }
    if crate::text::found_at(s, marker, i) {
        has_blob(s, i + marker.len())
    } else {
        false
    }
}

/// Whether `text` contains an argument that hands the interpreter an encoded
/// command.
///
/// Deliberately not a bare `-e `: that matches English prose. What is checked is
/// the `-enc` family followed by a token long enough and shaped enough to be
/// base64, which is the thing an analyst cannot read.
pub fn has_encoded_command(text: &str) -> (yes: bool)
    ensures
        yes == encoded_command(folded(text@)),
{
    let lower = folded_chars(text);
    if contains_any(&ENCODED_ARGUMENTS, lower.as_slice()) {
        return true;
    }
    let mut m: usize = 0;
    while m < 4
        invariant
            m <= 4,
            lower@ == folded(text@),
            !any_occurs(ENCODED_ARGUMENTS@, lower@),
            forall|k: int| 0 <= k < m ==> !marked_blob(lower@, (#[trigger] ENCODED_MARKERS@[k])@),
        decreases 4 - m,
    {
        if has_marked_blob(lower.as_slice(), chars_of(ENCODED_MARKERS[m]).as_slice()) {
            assert(marked_blob(lower@, ENCODED_MARKERS@[m as int]@));
            return true;
        }
        m += 1;
    }
    false
}

/// Where the white space behind `from`, or the end of the text, stands.
pub open spec fn token_to(s: Seq<char>, from: int) -> int
    decreases s.len() - from,
{
    if 0 <= from < s.len() && !white(s[from]) {
        token_to(s, from + 1)
    } else {
        from
    }
}

/// A text without the quotes at its start.
pub open spec fn unquoted_start(s: Seq<char>) -> Seq<char>
    decreases s.len(),
{
    if s.len() > 0 && s[0] == '"' {
        unquoted_start(s.drop_first())
    } else {
        s
    }
}

/// A text without the quotes at its end.
pub open spec fn unquoted_end(s: Seq<char>) -> Seq<char>
    decreases s.len(),
{
    if s.len() > 0 && s.last() == '"' {
        unquoted_end(s.drop_last())
    } else {
        s
    }
}

/// Where the first token of a command line, which starts at `start`, ends: at
/// white space. White space between a quote that the token starts with and the
/// next quote belongs to the token.
pub open spec fn first_token_to(s: Seq<char>, start: int) -> int {
    let closing = index_from(s, '"', start + 1);
    if start < s.len() && s[start] == '"' && closing < s.len() {
        token_to(s, closing)
    } else {
        token_to(s, start)
    }
}

/// The first token of a command line, without the quotes at its ends.
pub open spec fn first_token(s: Seq<char>) -> Seq<char> {
    let start = skip_white(s, 0);
    unquoted_end(unquoted_start(s.subrange(start, first_token_to(s, start))))
}

/// The image a command line names, capped for an alert body.
pub open spec fn command_image_of(command_line: Seq<char>) -> Seq<char> {
    let token = first_token(command_line);
    if token.len() <= IMAGE_CAP {
        token
    } else {
        token.take(IMAGE_CAP as int)
    }
}

fn first_word_end(s: &[char], start: usize) -> (end: usize)
    requires
        start <= s@.len(),
    ensures
        start <= end <= s@.len(),
        end == first_token_to(s@, start as int),
{
    let mut end: usize = start;
    if start < s.len() && s[start] == '"' {
        let closing: usize = find_from(s, '"', start + 1);
        if closing < s.len() {
            end = closing;
        }
    }
    let ghost from = end as int;
    while end < s.len() && !is_white(s[end])
        invariant
            start <= end <= s@.len(),
            token_to(s@, from) == token_to(s@, end as int),
        decreases s@.len() - end,
    {
        end += 1;
    }
    end
}

fn first_word(s: &[char]) -> (token: Vec<char>)
    ensures
        token@ == first_token(s@),
{
    let mut start: usize = 0;
    while start < s.len() && is_white(s[start])
        invariant
            start <= s@.len(),
            skip_white(s@, 0) == skip_white(s@, start as int),
        decreases s@.len() - start,
    {
        start += 1;
    }
    let end = first_word_end(s, start);
    let ghost whole = s@.subrange(start as int, end as int);
    let mut from: usize = start;
    while from < end && s[from] == '"'
        invariant
            start <= from <= end <= s@.len(),
            unquoted_start(whole) == unquoted_start(s@.subrange(from as int, end as int)),
        decreases end - from,
    {
        assert(s@.subrange(from as int, end as int).drop_first() == s@.subrange(
            from + 1,
            end as int,
        ));
        assert(s@.subrange(from as int, end as int)[0] == s@[from as int]);
        from += 1;
    }
    let ghost inner = s@.subrange(from as int, end as int);
    assert(from < end ==> inner[0] == s@[from as int]);
    assert(unquoted_start(whole) == inner);
    let mut to: usize = end;
    while to > from && s[to - 1] == '"'
        invariant
            from <= to <= end <= s@.len(),
            unquoted_end(inner) == unquoted_end(s@.subrange(from as int, to as int)),
        decreases to,
    {
        assert(s@.subrange(from as int, to as int).drop_last() == s@.subrange(
            from as int,
            to - 1,
        ));
        assert(s@.subrange(from as int, to as int).last() == s@[to - 1]);
        to -= 1;
    }
    assert(to > from ==> s@.subrange(from as int, to as int).last() == s@[to - 1]);
    copy_range(s, from, to)
}

/// The image a command line names, capped for an alert body.
///
/// The first token is the image; the rest is arguments, which is both more than
/// an analyst needs and the part most likely to carry a credential. A quoted
/// path with spaces is one token that means one path.
pub fn command_image(command_line: &str) -> (image: String)
    ensures
        image@ == command_image_of(command_line@),
{
    let token = first_word(chars_of(command_line).as_slice());
    if token.len() <= IMAGE_CAP {
        text_of(token.as_slice())
    } else {
        let front = copy_range(token.as_slice(), 0, IMAGE_CAP);
        assert(front@ == token@.take(IMAGE_CAP as int));
        text_of(front.as_slice())
    }
}

/// Whether WMI was called from another machine: reported so, or named so. That
/// nothing was reported is not the same fact as that the call was remote.
pub open spec fn remote_caller(wmi: WmiProcess) -> bool {
    wmi.is_local == Some(false) || match wmi.client_machine {
        Some(machine) => machine@.len() > 0 && machine@ != "."@,
        None => false,
    }
}

fn is_remote(wmi: &WmiProcess) -> (yes: bool)
    ensures
        yes == remote_caller(*wmi),
{
    if matches!(wmi.is_local, Some(false)) {
        return true;
    }
    match &wmi.client_machine {
        Some(machine) => !machine.as_str().is_empty() && !same(machine.as_str(), "."),
        None => false,
    }
}

/// T1059.001: a shell invoked with an encoded command. The encoding is the
/// signal, not the payload; a hidden window beside it is a further tell.
pub open spec fn encoded_interpreter_says(event: TelemetryEvent, facts: Known) -> Option<Evidence> {
    match event.kind {
        EventKind::ProcessStart(start) => {
            let command = command_of(start, facts);
            if !in_table(POWERSHELLS@, base_name_of(image_of(start, facts))) || command is None
                || !any_occurs(ENCODED_FLAGS@, folded(command->0)) {
                None
            } else if any_occurs(HIDDEN_FLAGS@, folded(command->0)) {
                Some(
                    evidence_of(
                        "encoded_powershell"@,
                        "T1059.001"@,
                        9200,
                        100,
                        "encoded command line, hidden=true"@,
                    ),
                )
            } else {
                Some(
                    evidence_of(
                        "encoded_powershell"@,
                        "T1059.001"@,
                        7200,
                        200,
                        "encoded command line, hidden=false"@,
                    ),
                )
            }
        },
        _ => None,
    }
}

fn encoded_interpreter(event: &TelemetryEvent, facts: &Facts<'_>) -> (found: Option<Finding>)
    ensures
        says(found) == encoded_interpreter_says(*event, facts.known()),
{
    match &event.kind {
        EventKind::ProcessStart(start) => {
            let image = image_text(start, facts);
            if !is_in_table(&POWERSHELLS, base_name(image).as_slice()) {
                return None;
            }
            let command = match command_text(start, facts) {
                Some(command) => folded_chars(command),
                None => {
                    return None;
                },
            };
            if !contains_any(&ENCODED_FLAGS, command.as_slice()) {
                return None;
            }
            if contains_any(&HIDDEN_FLAGS, command.as_slice()) {
                Some(
                    finding(
                        "encoded_powershell",
                        "T1059.001",
                        9200,
                        100,
                        "encoded command line, hidden=true".to_string(),
                    ),
                )
            } else {
                Some(
                    finding(
                        "encoded_powershell",
                        "T1059.001",
                        7200,
                        200,
                        "encoded command line, hidden=false".to_string(),
                    ),
                )
            }
        },
        _ => None,
    }
}

/// T1566 / T1059: an interpreter launched by an application that has no business
/// launching one.
pub open spec fn interpreter_from_host_app_says(event: TelemetryEvent, facts: Known) -> Option<Evidence> {
    match event.kind {
        EventKind::ProcessStart(start) => {
            let image = base_name_of(image_of(start, facts));
            match facts.parent_image {
                Some(path) => {
                    let parent = base_name_of(path);
                    if in_table(INTERPRETERS@, image) && in_table(OFFICE_AND_BROWSERS@, parent) {
                        Some(
                            evidence_of(
                                "interpreter_from_host_app"@,
                                "T1059"@,
                                5500,
                                400,
                                parent + " spawned "@ + image,
                            ),
                        )
                    } else {
                        None
                    }
                },
                None => None,
            }
        },
        _ => None,
    }
}

fn interpreter_from_host_app(event: &TelemetryEvent, facts: &Facts<'_>) -> (found: Option<Finding>)
    ensures
        says(found) == interpreter_from_host_app_says(*event, facts.known()),
{
    match &event.kind {
        EventKind::ProcessStart(start) => {
            let image = base_name(image_text(start, facts));
            if !is_in_table(&INTERPRETERS, image.as_slice()) {
                return None;
            }
            let parent = match facts.parent_image {
                Some(path) => base_name(path),
                None => {
                    return None;
                },
            };
            if !is_in_table(&OFFICE_AND_BROWSERS, parent.as_slice()) {
                return None;
            }
            Some(
                finding(
                    "interpreter_from_host_app",
                    "T1059",
                    5500,
                    400,
                    concat3(
                        text_of(parent.as_slice()).as_str(),
                        " spawned ",
                        text_of(image.as_slice()).as_str(),
                    ),
                ),
            )
        },
        _ => None,
    }
}

/// T1036.005: a process carrying a system binary's name, running from somewhere
/// an ordinary user can write to.
pub open spec fn masquerading_outside_system32_says(event: TelemetryEvent, facts: Known) -> Option<Evidence> {
    match event.kind {
        EventKind::ProcessStart(start) => {
            let image = image_of(start, facts);
            if in_table(SYSTEM_NAMES@, stem_of(image)) && writable(image) {
                Some(
                    evidence_of(
                        "masquerading_outside_system32"@,
                        "T1036.005"@,
                        8800,
                        150,
                        image + " is a system name in a writable location"@,
                    ),
                )
            } else {
                None
            }
        },
        _ => None,
    }
}

fn masquerading_outside_system32(event: &TelemetryEvent, facts: &Facts<'_>) -> (found: Option<Finding>)
    ensures
        says(found) == masquerading_outside_system32_says(*event, facts.known()),
{
    match &event.kind {
        EventKind::ProcessStart(start) => {
            let image = image_text(start, facts);
            if !is_in_table(&SYSTEM_NAMES, stem(image).as_slice()) {
                return None;
            }
            if !in_writable_location(image) {
                return None;
            }
            Some(
                finding(
                    "masquerading_outside_system32",
                    "T1036.005",
                    8800,
                    150,
                    concat(image, " is a system name in a writable location"),
                ),
            )
        },
        _ => None,
    }
}

/// T1218: a signed binary asked to fetch or execute something remote.
pub open spec fn lolbin_network_use_says(event: TelemetryEvent, facts: Known) -> Option<Evidence> {
    match event.kind {
        EventKind::ProcessStart(start) => {
            let image = stem_of(image_of(start, facts));
            let command = command_of(start, facts);
            if in_table(LOLBINS@, image) && command is Some && any_occurs(
                REMOTE_ARGUMENTS@,
                folded(command->0),
            ) {
                Some(
                    evidence_of(
                        "lolbin_remote_fetch"@,
                        "T1218"@,
                        6800,
                        250,
                        image + " used against a remote location"@,
                    ),
                )
            } else {
                None
            }
        },
        _ => None,
    }
}

fn lolbin_network_use(event: &TelemetryEvent, facts: &Facts<'_>) -> (found: Option<Finding>)
    ensures
        says(found) == lolbin_network_use_says(*event, facts.known()),
{
    match &event.kind {
        EventKind::ProcessStart(start) => {
            let image = stem(image_text(start, facts));
            if !is_in_table(&LOLBINS, image.as_slice()) {
                return None;
            }
            let command = match command_text(start, facts) {
                Some(command) => folded_chars(command),
                None => {
                    return None;
                },
            };
            if !contains_any(&REMOTE_ARGUMENTS, command.as_slice()) {
                return None;
            }
            Some(
                finding(
                    "lolbin_remote_fetch",
                    "T1218",
                    6800,
                    250,
                    concat(text_of(image.as_slice()).as_str(), " used against a remote location"),
                ),
            )
        },
        _ => None,
    }
}

/// T1547.001: a value written under a Run key.
pub open spec fn run_key_persistence_says(event: TelemetryEvent, facts: Known) -> Option<Evidence> {
    match event.kind {
        EventKind::RegistrySet(set) => if any_occurs(PERSISTENCE_KEYS@, folded(set.key_path@)) {
            Some(
                evidence_of(
                    "run_key_persistence"@,
                    "T1547.001"@,
                    6200,
                    80,
                    set.key_path@ + " written"@,
                ),
            )
        } else {
            None
        },
        _ => None,
    }
}

fn run_key_persistence(event: &TelemetryEvent, facts: &Facts<'_>) -> (found: Option<Finding>)
    ensures
        says(found) == run_key_persistence_says(*event, facts.known()),
{
    match &event.kind {
        EventKind::RegistrySet(set) => {
            let key = folded_chars(set.key_path.as_str());
            if !contains_any(&PERSISTENCE_KEYS, key.as_slice()) {
                return None;
            }
            Some(
                finding(
                    "run_key_persistence",
                    "T1547.001",
                    6200,
                    80,
                    concat(set.key_path.as_str(), " written"),
                ),
            )
        },
        _ => None,
    }
}

/// T1071.004: name resolution against a namespace with a high abuse rate. Weak on
/// purpose.
pub open spec fn high_abuse_tld_says(event: TelemetryEvent, facts: Known) -> Option<Evidence> {
    match event.kind {
        EventKind::DnsQuery(dns) => if any_ends(HIGH_ABUSE_TLDS@, folded(dns.query_name@)) {
            Some(
                evidence_of(
                    "high_abuse_tld"@,
                    "T1071.004"@,
                    3000,
                    700,
                    dns.query_name@ + " in a high-abuse namespace"@,
                ),
            )
        } else {
            None
        },
        _ => None,
    }
}

fn high_abuse_tld(event: &TelemetryEvent, facts: &Facts<'_>) -> (found: Option<Finding>)
    ensures
        says(found) == high_abuse_tld_says(*event, facts.known()),
{
    match &event.kind {
        EventKind::DnsQuery(dns) => {
            let name = folded_chars(dns.query_name.as_str());
            if !ends_with_any(&HIGH_ABUSE_TLDS, name.as_slice()) {
                return None;
            }
            Some(
                finding(
                    "high_abuse_tld",
                    "T1071.004",
                    3000,
                    700,
                    concat(dns.query_name.as_str(), " in a high-abuse namespace"),
                ),
            )
        },
        _ => None,
    }
}

/// T1036: an executable the host has never seen, running from a location any
/// user can write to.
pub open spec fn novel_binary_in_writable_location_says(event: TelemetryEvent, facts: Known) -> Option<Evidence> {
    match event.kind {
        EventKind::ProcessStart(start) => {
            let image = image_of(start, facts);
            if facts.image_is_novel && writable(image) {
                Some(
                    evidence_of(
                        "novel_binary_in_writable_location"@,
                        "T1036"@,
                        4500,
                        300,
                        "first sighting of "@ + image + " from a writable location"@,
                    ),
                )
            } else {
                None
            }
        },
        _ => None,
    }
}

fn novel_binary_in_writable_location(event: &TelemetryEvent, facts: &Facts<'_>) -> (found: Option<Finding>)
    ensures
        says(found) == novel_binary_in_writable_location_says(*event, facts.known()),
{
    match &event.kind {
        EventKind::ProcessStart(start) => {
            if !facts.image_is_novel {
                return None;
            }
            let image = image_text(start, facts);
            if !in_writable_location(image) {
                return None;
            }
            Some(
                finding(
                    "novel_binary_in_writable_location",
                    "T1036",
                    4500,
                    300,
                    concat3("first sighting of ", image, " from a writable location"),
                ),
            )
        },
        _ => None,
    }
}

/// One process producing an unusual number of children. Rises with the fan-out:
/// eight children is a build system, forty is not.
pub open spec fn process_fanout_burst_says(event: TelemetryEvent, facts: Known) -> Option<Evidence> {
    match event.kind {
        EventKind::ProcessStart(_) => {
            let detail = "parent has produced "@ + decimal_text(facts.siblings)
                + " children"@;
            if facts.siblings < 8 {
                None
            } else if facts.siblings >= 32 {
                Some(evidence_of("process_fanout_burst"@, "T1055"@, 5000, 200, detail))
            } else {
                Some(evidence_of("process_fanout_burst"@, "T1055"@, 2500, 600, detail))
            }
        },
        _ => None,
    }
}

fn process_fanout_burst(event: &TelemetryEvent, facts: &Facts<'_>) -> (found: Option<Finding>)
    ensures
        says(found) == process_fanout_burst_says(*event, facts.known()),
{
    match &event.kind {
        EventKind::ProcessStart(_) => {
            if facts.siblings < 8 {
                return None;
            }
            let detail = concat3(
                "parent has produced ",
                decimal(facts.siblings as u64).as_str(),
                " children",
            );
            if facts.siblings >= 32 {
                Some(finding("process_fanout_burst", "T1055", 5000, 200, detail))
            } else {
                Some(finding("process_fanout_burst", "T1055", 2500, 600, detail))
            }
        },
        _ => None,
    }
}

/// T1059.001: PowerShell handed an encoded command through the script itself.
pub open spec fn script_block_encoded_command_says(event: TelemetryEvent, facts: Known) -> Option<Evidence> {
    match event.kind {
        EventKind::ScriptBlock(block) => if encoded_command(folded(block.text@)) {
            Some(
                evidence_of(
                    "script_block_encoded_command"@,
                    "T1059.001"@,
                    8000,
                    150,
                    "script block passes an encoded command"@,
                ),
            )
        } else {
            None
        },
        _ => None,
    }
}

fn script_block_encoded_command(event: &TelemetryEvent, facts: &Facts<'_>) -> (found: Option<Finding>)
    ensures
        says(found) == script_block_encoded_command_says(*event, facts.known()),
{
    match &event.kind {
        EventKind::ScriptBlock(block) => {
            if !has_encoded_command(block.text.as_str()) {
                return None;
            }
            Some(
                finding(
                    "script_block_encoded_command",
                    "T1059.001",
                    8000,
                    150,
                    "script block passes an encoded command".to_string(),
                ),
            )
        },
        _ => None,
    }
}

/// T1140: the script decodes or assembles itself before running.
pub open spec fn script_block_obfuscated_says(event: TelemetryEvent, facts: Known) -> Option<Evidence> {
    match event.kind {
        EventKind::ScriptBlock(block) => match first_occurring(OBFUSCATION_MARKERS@, folded(block.text@)) {
            Some(marker) => Some(
                evidence_of(
                    "script_block_obfuscated"@,
                    "T1140"@,
                    5500,
                    300,
                    "script block contains "@ + marker,
                ),
            ),
            None => None,
        },
        _ => None,
    }
}

fn script_block_obfuscated(event: &TelemetryEvent, facts: &Facts<'_>) -> (found: Option<Finding>)
    ensures
        says(found) == script_block_obfuscated_says(*event, facts.known()),
{
    match &event.kind {
        EventKind::ScriptBlock(block) => {
            let text = folded_chars(block.text.as_str());
            match first_contained(&OBFUSCATION_MARKERS, text.as_slice()) {
                Some(marker) => Some(
                    finding(
                        "script_block_obfuscated",
                        "T1140",
                        5500,
                        300,
                        concat("script block contains ", marker),
                    ),
                ),
                None => None,
            }
        },
        _ => None,
    }
}

/// T1105: the script fetches something over the network.
pub open spec fn script_block_remote_fetch_says(event: TelemetryEvent, facts: Known) -> Option<Evidence> {
    match event.kind {
        EventKind::ScriptBlock(block) => match first_occurring(REMOTE_FETCH_MARKERS@, folded(block.text@)) {
            Some(marker) => Some(
                evidence_of(
                    "script_block_remote_fetch"@,
                    "T1105"@,
                    4500,
                    500,
                    "script block contains "@ + marker,
                ),
            ),
            None => None,
        },
        _ => None,
    }
}

fn script_block_remote_fetch(event: &TelemetryEvent, facts: &Facts<'_>) -> (found: Option<Finding>)
    ensures
        says(found) == script_block_remote_fetch_says(*event, facts.known()),
{
    match &event.kind {
        EventKind::ScriptBlock(block) => {
            let text = folded_chars(block.text.as_str());
            match first_contained(&REMOTE_FETCH_MARKERS, text.as_slice()) {
                Some(marker) => Some(
                    finding(
                        "script_block_remote_fetch",
                        "T1105",
                        4500,
                        500,
                        concat("script block contains ", marker),
                    ),
                ),
                None => None,
            }
        },
        _ => None,
    }
}

/// T1562.001: the script tampers with the security product on the host.
pub open spec fn script_block_defence_evasion_says(event: TelemetryEvent, facts: Known) -> Option<Evidence> {
    match event.kind {
        EventKind::ScriptBlock(block) => match first_occurring(DEFENCE_EVASION_MARKERS@, folded(block.text@)) {
            Some(marker) => Some(
                evidence_of(
                    "script_block_defence_evasion"@,
                    "T1562.001"@,
                    6500,
                    50,
                    "script block contains "@ + marker,
                ),
            ),
            None => None,
        },
        _ => None,
    }
}

fn script_block_defence_evasion(event: &TelemetryEvent, facts: &Facts<'_>) -> (found: Option<Finding>)
    ensures
        says(found) == script_block_defence_evasion_says(*event, facts.known()),
{
    match &event.kind {
        EventKind::ScriptBlock(block) => {
            let text = folded_chars(block.text.as_str());
            match first_contained(&DEFENCE_EVASION_MARKERS, text.as_slice()) {
                Some(marker) => Some(
                    finding(
                        "script_block_defence_evasion",
                        "T1562.001",
                        6500,
                        50,
                        concat("script block contains ", marker),
                    ),
                ),
                None => None,
            }
        },
        _ => None,
    }
}

/// T1047: a process created through WMI. A remote caller spawning an interpreter
/// is the textbook shape; a local caller running something ordinary is what
/// monitoring software does all day.
pub open spec fn wmi_process_creation_says(event: TelemetryEvent, facts: Known) -> Option<Evidence> {
    match event.kind {
        EventKind::WmiProcess(wmi) => {
            let command = folded(wmi.command_line@);
            let interpreter = any_occurs(INTERPRETERS@, command) || any_occurs(LOLBINS@, command);
            let remote = remote_caller(wmi);
            let image = command_image_of(wmi.command_line@);
            if interpreter && remote {
                Some(
                    evidence_of(
                        "wmi_process_creation"@,
                        "T1047"@,
                        9000,
                        100,
                        "remote WMI call spawning an interpreter: "@ + image,
                    ),
                )
            } else if interpreter {
                Some(
                    evidence_of(
                        "wmi_process_creation"@,
                        "T1047"@,
                        7000,
                        200,
                        "WMI call spawning an interpreter: "@ + image,
                    ),
                )
            } else if remote {
                Some(
                    evidence_of(
                        "wmi_process_creation"@,
                        "T1047"@,
                        5500,
                        150,
                        "remote WMI process creation: "@ + image,
                    ),
                )
            } else {
                Some(
                    evidence_of(
                        "wmi_process_creation"@,
                        "T1047"@,
                        3500,
                        400,
                        "WMI process creation: "@ + image,
                    ),
                )
            }
        },
        _ => None,
    }
}

fn wmi_process_creation(event: &TelemetryEvent, facts: &Facts<'_>) -> (found: Option<Finding>)
    ensures
        says(found) == wmi_process_creation_says(*event, facts.known()),
{
    match &event.kind {
        EventKind::WmiProcess(wmi) => {
            let command = folded_chars(wmi.command_line.as_str());
            let interpreter = contains_any(&INTERPRETERS, command.as_slice()) || contains_any(
                &LOLBINS,
                command.as_slice(),
            );
            let remote = is_remote(wmi);
            let image = command_image(wmi.command_line.as_str());
            if interpreter && remote {
                Some(
                    finding(
                        "wmi_process_creation",
                        "T1047",
                        9000,
                        100,
                        concat("remote WMI call spawning an interpreter: ", image.as_str()),
                    ),
                )
            } else if interpreter {
                Some(
                    finding(
                        "wmi_process_creation",
                        "T1047",
                        7000,
                        200,
                        concat("WMI call spawning an interpreter: ", image.as_str()),
                    ),
                )
            } else if remote {
                Some(
                    finding(
                        "wmi_process_creation",
                        "T1047",
                        5500,
                        150,
                        concat("remote WMI process creation: ", image.as_str()),
                    ),
                )
            } else {
                Some(
                    finding(
                        "wmi_process_creation",
                        "T1047",
                        3500,
                        400,
                        concat("WMI process creation: ", image.as_str()),
                    ),
                )
            }
        },
        _ => None,
    }
}

/// T1546.003: a permanent WMI event subscription. Only a command-line or script
/// consumer can run supplied code.
pub open spec fn wmi_permanent_subscription_says(event: TelemetryEvent, facts: Known) -> Option<Evidence> {
    match event.kind {
        EventKind::WmiSubscription(sub) => {
            let consumer = match sub.consumer {
                Some(text) => text@,
                None => ""@,
            };
            if any_occurs(CODE_CONSUMERS@, folded(consumer)) {
                Some(
                    evidence_of(
                        "wmi_permanent_subscription"@,
                        "T1546.003"@,
                        8500,
                        80,
                        "permanent WMI subscription with a code-running consumer ("@ + command_image_of(consumer) + ")"@,
                    ),
                )
            } else {
                Some(
                    evidence_of(
                        "wmi_permanent_subscription"@,
                        "T1546.003"@,
                        4500,
                        300,
                        "permanent WMI subscription in "@ + sub.namespace@,
                    ),
                )
            }
        },
        _ => None,
    }
}

fn wmi_permanent_subscription(event: &TelemetryEvent, facts: &Facts<'_>) -> (found: Option<Finding>)
    ensures
        says(found) == wmi_permanent_subscription_says(*event, facts.known()),
{
    match &event.kind {
        EventKind::WmiSubscription(sub) => {
            let consumer: &str = match &sub.consumer {
                Some(text) => text.as_str(),
                None => "",
            };
            let folded_consumer = folded_chars(consumer);
            if contains_any(&CODE_CONSUMERS, folded_consumer.as_slice()) {
                Some(
                    finding(
                        "wmi_permanent_subscription",
                        "T1546.003",
                        8500,
                        80,
                        concat3(
                            "permanent WMI subscription with a code-running consumer (",
                            command_image(consumer).as_str(),
                            ")",
                        ),
                    ),
                )
            } else {
                Some(
                    finding(
                        "wmi_permanent_subscription",
                        "T1546.003",
                        4500,
                        300,
                        concat("permanent WMI subscription in ", sub.namespace.as_str()),
                    ),
                )
            }
        },
        _ => None,
    }
}

/// T1053.005: a scheduled task registered from outside the Windows namespace,
/// and more so one that is named like a Windows component.
pub open spec fn scheduled_task_registered_says(event: TelemetryEvent, facts: Known) -> Option<Evidence> {
    match event.kind {
        EventKind::TaskRegistered(task) => {
            let name = folded(task.task_name@);
            if occurs_at(name, "\\microsoft\\"@, 0) {
                None
            } else if any_occurs(WINDOWS_WORDS@, name) {
                Some(
                    evidence_of(
                        "scheduled_task_registered"@,
                        "T1053.005"@,
                        6000,
                        200,
                        "task "@ + task.task_name@ + " uses a Windows-sounding name outside \\Microsoft\\"@,
                    ),
                )
            } else {
                Some(
                    evidence_of(
                        "scheduled_task_registered"@,
                        "T1053.005"@,
                        4000,
                        350,
                        "task registered: "@ + task.task_name@,
                    ),
                )
            }
        },
        _ => None,
    }
}

fn scheduled_task_registered(event: &TelemetryEvent, facts: &Facts<'_>) -> (found: Option<Finding>)
    ensures
        says(found) == scheduled_task_registered_says(*event, facts.known()),
{
    match &event.kind {
        EventKind::TaskRegistered(task) => {
            let name = folded_chars(task.task_name.as_str());
            if starts_with(name.as_slice(), chars_of("\\microsoft\\").as_slice()) {
                return None;
            }
            if contains_any(&WINDOWS_WORDS, name.as_slice()) {
                Some(
                    finding(
                        "scheduled_task_registered",
                        "T1053.005",
                        6000,
                        200,
                        concat3(
                            "task ",
                            task.task_name.as_str(),
                            " uses a Windows-sounding name outside \\Microsoft\\",
                        ),
                    ),
                )
            } else {
                Some(
                    finding(
                        "scheduled_task_registered",
                        "T1053.005",
                        4000,
                        350,
                        concat("task registered: ", task.task_name.as_str()),
                    ),
                )
            }
        },
        _ => None,
    }
}

/// T1574: an image known to have no valid signature, loaded from a location any
/// user can write to.
pub open spec fn unsigned_image_from_writable_location_says(event: TelemetryEvent, facts: Known) -> Option<Evidence> {
    match event.kind {
        EventKind::ImageLoad(image) => if image.signed == Some(false) && writable(
            image.image_path@,
        ) {
            Some(
                evidence_of(
                    "unsigned_image_from_writable_location"@,
                    "T1574.002"@,
                    4200,
                    300,
                    "unsigned image loaded from "@ + image.image_path@,
                ),
            )
        } else {
            None
        },
        _ => None,
    }
}

fn unsigned_image_from_writable_location(event: &TelemetryEvent, facts: &Facts<'_>) -> (found: Option<Finding>)
    ensures
        says(found) == unsigned_image_from_writable_location_says(*event, facts.known()),
{
    match &event.kind {
        EventKind::ImageLoad(image) => {
            if !matches!(image.signed, Some(false)) {
                return None;
            }
            if !in_writable_location(image.image_path.as_str()) {
                return None;
            }
            Some(
                finding(
                    "unsigned_image_from_writable_location",
                    "T1574.002",
                    4200,
                    300,
                    concat("unsigned image loaded from ", image.image_path.as_str()),
                ),
            )
        },
        _ => None,
    }
}

/// T1105: a file with an executable extension written to a location any user can
/// write to.
pub open spec fn executable_dropped_in_writable_location_says(event: TelemetryEvent, facts: Known) -> Option<Evidence> {
    match event.kind {
        EventKind::FileCreate(file) => if any_ends(EXECUTABLE_EXTENSIONS@, folded(file.path@))
            && writable(file.path@) {
            Some(
                evidence_of(
                    "executable_dropped_in_writable_location"@,
                    "T1105"@,
                    3500,
                    400,
                    "executable written to "@ + file.path@,
                ),
            )
        } else {
            None
        },
        _ => None,
    }
}

fn executable_dropped_in_writable_location(event: &TelemetryEvent, facts: &Facts<'_>) -> (found: Option<Finding>)
    ensures
        says(found) == executable_dropped_in_writable_location_says(*event, facts.known()),
{
    match &event.kind {
        EventKind::FileCreate(file) => {
            let path = folded_chars(file.path.as_str());
            if !ends_with_any(&EXECUTABLE_EXTENSIONS, path.as_slice()) {
                return None;
            }
            if !in_writable_location(file.path.as_str()) {
                return None;
            }
            Some(
                finding(
                    "executable_dropped_in_writable_location",
                    "T1105",
                    3500,
                    400,
                    concat("executable written to ", file.path.as_str()),
                ),
            )
        },
        _ => None,
    }
}

/// Everything the rules say of one event, in the order of the rules.
pub open spec fn evaluated(event: TelemetryEvent, facts: Known) -> Seq<Evidence> {
    listed(encoded_interpreter_says(event, facts))
        + listed(interpreter_from_host_app_says(event, facts))
        + listed(masquerading_outside_system32_says(event, facts))
        + listed(lolbin_network_use_says(event, facts))
        + listed(run_key_persistence_says(event, facts))
        + listed(high_abuse_tld_says(event, facts))
        + listed(novel_binary_in_writable_location_says(event, facts))
        + listed(process_fanout_burst_says(event, facts))
        + listed(script_block_encoded_command_says(event, facts))
        + listed(script_block_obfuscated_says(event, facts))
        + listed(script_block_remote_fetch_says(event, facts))
        + listed(script_block_defence_evasion_says(event, facts))
        + listed(wmi_process_creation_says(event, facts))
        + listed(wmi_permanent_subscription_says(event, facts))
        + listed(scheduled_task_registered_says(event, facts))
        + listed(unsigned_image_from_writable_location_says(event, facts))
        + listed(executable_dropped_in_writable_location_says(event, facts))
}

fn keep(findings: &mut Vec<Finding>, found: Option<Finding>)
    ensures
        all_say(final(findings)@) == all_say(old(findings)@) + listed(says(found)),
{
    let ghost before = all_say(findings@);
    match found {
        Some(finding) => {
            let ghost said = finding.says();
            findings.push(finding);
            assert(all_say(findings@) == before + seq![said]);
        },
        None => {
            assert(all_say(findings@) == before + Seq::<Evidence>::empty());
        },
    }
}

/// Evaluates every rule against one event.
pub fn evaluate(event: &TelemetryEvent, facts: &Facts<'_>) -> (findings: Vec<Finding>)
    ensures
        all_say(findings@) == evaluated(*event, facts.known()),
{
    let mut findings: Vec<Finding> = Vec::new();
    assert(all_say(findings@) == Seq::<Evidence>::empty());
    keep(&mut findings, encoded_interpreter(event, facts));
    keep(&mut findings, interpreter_from_host_app(event, facts));
    keep(&mut findings, masquerading_outside_system32(event, facts));
    keep(&mut findings, lolbin_network_use(event, facts));
    keep(&mut findings, run_key_persistence(event, facts));
    keep(&mut findings, high_abuse_tld(event, facts));
    keep(&mut findings, novel_binary_in_writable_location(event, facts));
    keep(&mut findings, process_fanout_burst(event, facts));
    keep(&mut findings, script_block_encoded_command(event, facts));
    keep(&mut findings, script_block_obfuscated(event, facts));
    keep(&mut findings, script_block_remote_fetch(event, facts));
    keep(&mut findings, script_block_defence_evasion(event, facts));
    keep(&mut findings, wmi_process_creation(event, facts));
    keep(&mut findings, wmi_permanent_subscription(event, facts));
    keep(&mut findings, scheduled_task_registered(event, facts));
    keep(&mut findings, unsigned_image_from_writable_location(event, facts));
    keep(&mut findings, executable_dropped_in_writable_location(event, facts));
    assert(all_say(findings@) == evaluated(*event, facts.known()));
    findings
}

/// A human name for a rule.
pub open spec fn title_of(rule: Seq<char>) -> Seq<char> {
    if rule == "encoded_powershell"@ {
        "Encoded PowerShell command"@
    } else if rule == "interpreter_from_host_app"@ {
        "Interpreter spawned by a host application"@
    } else if rule == "masquerading_outside_system32"@ {
        "System binary name outside a system directory"@
    } else if rule == "lolbin_remote_fetch"@ {
        "Signed binary used against a remote location"@
    } else if rule == "run_key_persistence"@ {
        "Persistence via a Run key"@
    } else if rule == "high_abuse_tld"@ {
        "Resolution in a high-abuse namespace"@
    } else if rule == "novel_binary_in_writable_location"@ {
        "First sighting of a binary in a writable location"@
    } else if rule == "process_fanout_burst"@ {
        "Unusual process fan-out"@
    } else if rule == "script_block_encoded_command"@ {
        "PowerShell script with an encoded command"@
    } else if rule == "script_block_obfuscated"@ {
        "PowerShell script that decodes itself"@
    } else if rule == "script_block_remote_fetch"@ {
        "PowerShell script fetching from the network"@
    } else if rule == "script_block_defence_evasion"@ {
        "PowerShell script touching the defences"@
    } else if rule == "wmi_process_creation"@ {
        "Process created through WMI"@
    } else if rule == "wmi_permanent_subscription"@ {
        "Permanent WMI event subscription"@
    } else if rule == "scheduled_task_registered"@ {
        "Scheduled task registered outside the Windows namespace"@
    } else if rule == "unsigned_image_from_writable_location"@ {
        "Unsigned image loaded from a writable location"@
    } else if rule == "executable_dropped_in_writable_location"@ {
        "Executable written to a writable location"@
    } else {
        "Suspicious activity"@
    }
}

/// Whether a rule has a title of its own.
pub open spec fn is_titled(rule: Seq<char>) -> bool {
    title_of(rule) != "Suspicious activity"@
}

/// Whether every finding names a rule that has a title of its own.
pub open spec fn all_titled(said: Seq<Evidence>) -> bool {
    forall|i: int| 0 <= i < said.len() ==> is_titled((#[trigger] said[i]).rule)
}

proof fn lemma_titles()
    ensures
        is_titled("encoded_powershell"@),
        is_titled("interpreter_from_host_app"@),
        is_titled("masquerading_outside_system32"@),
        is_titled("lolbin_remote_fetch"@),
        is_titled("run_key_persistence"@),
        is_titled("high_abuse_tld"@),
        is_titled("novel_binary_in_writable_location"@),
        is_titled("process_fanout_burst"@),
        is_titled("script_block_encoded_command"@),
        is_titled("script_block_obfuscated"@),
        is_titled("script_block_remote_fetch"@),
        is_titled("script_block_defence_evasion"@),
        is_titled("wmi_process_creation"@),
        is_titled("wmi_permanent_subscription"@),
        is_titled("scheduled_task_registered"@),
        is_titled("unsigned_image_from_writable_location"@),
        is_titled("executable_dropped_in_writable_location"@),
{
    reveal_strlit("Encoded PowerShell command");
    reveal_strlit("Interpreter spawned by a host application");
    reveal_strlit("System binary name outside a system directory");
    reveal_strlit("Signed binary used against a remote location");
    reveal_strlit("Persistence via a Run key");
    reveal_strlit("Resolution in a high-abuse namespace");
    reveal_strlit("First sighting of a binary in a writable location");
    reveal_strlit("Unusual process fan-out");
    reveal_strlit("PowerShell script with an encoded command");
    reveal_strlit("PowerShell script that decodes itself");
    reveal_strlit("PowerShell script fetching from the network");
    reveal_strlit("PowerShell script touching the defences");
    reveal_strlit("Process created through WMI");
    reveal_strlit("Permanent WMI event subscription");
    reveal_strlit("Scheduled task registered outside the Windows namespace");
    reveal_strlit("Unsigned image loaded from a writable location");
    reveal_strlit("Executable written to a writable location");
    reveal_strlit("Suspicious activity");
    assert("Encoded PowerShell command"@.len() == 26);
    assert("Interpreter spawned by a host application"@.len() == 41);
    assert("System binary name outside a system directory"@.len() == 45);
    assert("Signed binary used against a remote location"@.len() == 44);
    assert("Persistence via a Run key"@.len() == 25);
    assert("Resolution in a high-abuse namespace"@.len() == 36);
    assert("First sighting of a binary in a writable location"@.len() == 49);
    assert("Unusual process fan-out"@.len() == 23);
    assert("PowerShell script with an encoded command"@.len() == 41);
    assert("PowerShell script that decodes itself"@.len() == 37);
    assert("PowerShell script fetching from the network"@.len() == 43);
    assert("PowerShell script touching the defences"@.len() == 39);
    assert("Process created through WMI"@.len() == 27);
    assert("Permanent WMI event subscription"@.len() == 32);
    assert("Scheduled task registered outside the Windows namespace"@.len() == 55);
    assert("Unsigned image loaded from a writable location"@.len() == 46);
    assert("Executable written to a writable location"@.len() == 41);
    assert("Suspicious activity"@.len() == 19);
}

proof fn lemma_titled_together(a: Seq<Evidence>, b: Seq<Evidence>)
    requires
        all_titled(a),
        all_titled(b),
    ensures
        all_titled(a + b),
{
    assert forall|i: int| 0 <= i < (a + b).len() implies is_titled((#[trigger] (a + b)[i]).rule) by {
        if i < a.len() {
            assert((a + b)[i] == a[i]);
        } else {
            assert((a + b)[i] == b[i - a.len()]);
        }
    }
}

/// Every rule that can fire has a human title of its own: no finding reads as
/// mere suspicious activity.
pub proof fn every_finding_has_a_title(event: TelemetryEvent, facts: Known)
    ensures
        all_titled(evaluated(event, facts)),
{
    lemma_titles();
    let s0 = listed(encoded_interpreter_says(event, facts));
    assert(all_titled(s0));
    let n1 = listed(interpreter_from_host_app_says(event, facts));
    assert(all_titled(n1));
    let s1 = s0 + n1;
    lemma_titled_together(s0, n1);
    let n2 = listed(masquerading_outside_system32_says(event, facts));
    assert(all_titled(n2));
    let s2 = s1 + n2;
    lemma_titled_together(s1, n2);
    let n3 = listed(lolbin_network_use_says(event, facts));
    assert(all_titled(n3));
    let s3 = s2 + n3;
    lemma_titled_together(s2, n3);
    let n4 = listed(run_key_persistence_says(event, facts));
    assert(all_titled(n4));
    let s4 = s3 + n4;
    lemma_titled_together(s3, n4);
    let n5 = listed(high_abuse_tld_says(event, facts));
    assert(all_titled(n5));
    let s5 = s4 + n5;
    lemma_titled_together(s4, n5);
    let n6 = listed(novel_binary_in_writable_location_says(event, facts));
    assert(all_titled(n6));
    let s6 = s5 + n6;
    lemma_titled_together(s5, n6);
    let n7 = listed(process_fanout_burst_says(event, facts));
    assert(all_titled(n7));
    let s7 = s6 + n7;
    lemma_titled_together(s6, n7);
    let n8 = listed(script_block_encoded_command_says(event, facts));
    assert(all_titled(n8));
    let s8 = s7 + n8;
    lemma_titled_together(s7, n8);
    let n9 = listed(script_block_obfuscated_says(event, facts));
    assert(all_titled(n9));
    let s9 = s8 + n9;
    lemma_titled_together(s8, n9);
    let n10 = listed(script_block_remote_fetch_says(event, facts));
    assert(all_titled(n10));
    let s10 = s9 + n10;
    lemma_titled_together(s9, n10);
    let n11 = listed(script_block_defence_evasion_says(event, facts));
    assert(all_titled(n11));
    let s11 = s10 + n11;
    lemma_titled_together(s10, n11);
    let n12 = listed(wmi_process_creation_says(event, facts));
    assert(all_titled(n12));
    let s12 = s11 + n12;
    lemma_titled_together(s11, n12);
    let n13 = listed(wmi_permanent_subscription_says(event, facts));
    assert(all_titled(n13));
    let s13 = s12 + n13;
    lemma_titled_together(s12, n13);
    let n14 = listed(scheduled_task_registered_says(event, facts));
    assert(all_titled(n14));
    let s14 = s13 + n14;
    lemma_titled_together(s13, n14);
    let n15 = listed(unsigned_image_from_writable_location_says(event, facts));
    assert(all_titled(n15));
    let s15 = s14 + n15;
    lemma_titled_together(s14, n15);
    let n16 = listed(executable_dropped_in_writable_location_says(event, facts));
    assert(all_titled(n16));
    let s16 = s15 + n16;
    lemma_titled_together(s15, n16);
    assert(evaluated(event, facts) == s16);
}

/// A human name for a rule, for an alert title. Deliberately not the rule id.
pub fn rule_title(rule: &str) -> (title: &'static str)
    ensures
        title@ == title_of(rule@),
{
    if same(rule, "encoded_powershell") {
        "Encoded PowerShell command"
    } else if same(rule, "interpreter_from_host_app") {
        "Interpreter spawned by a host application"
    } else if same(rule, "masquerading_outside_system32") {
        "System binary name outside a system directory"
    } else if same(rule, "lolbin_remote_fetch") {
        "Signed binary used against a remote location"
    } else if same(rule, "run_key_persistence") {
        "Persistence via a Run key"
    } else if same(rule, "high_abuse_tld") {
        "Resolution in a high-abuse namespace"
    } else if same(rule, "novel_binary_in_writable_location") {
        "First sighting of a binary in a writable location"
    } else if same(rule, "process_fanout_burst") {
        "Unusual process fan-out"
    } else if same(rule, "script_block_encoded_command") {
        "PowerShell script with an encoded command"
    } else if same(rule, "script_block_obfuscated") {
        "PowerShell script that decodes itself"
    } else if same(rule, "script_block_remote_fetch") {
        "PowerShell script fetching from the network"
    } else if same(rule, "script_block_defence_evasion") {
        "PowerShell script touching the defences"
    } else if same(rule, "wmi_process_creation") {
        "Process created through WMI"
    } else if same(rule, "wmi_permanent_subscription") {
        "Permanent WMI event subscription"
    } else if same(rule, "scheduled_task_registered") {
        "Scheduled task registered outside the Windows namespace"
    } else if same(rule, "unsigned_image_from_writable_location") {
        "Unsigned image loaded from a writable location"
    } else if same(rule, "executable_dropped_in_writable_location") {
        "Executable written to a writable location"
    } else {
        "Suspicious activity"
    }
}

} // verus!
