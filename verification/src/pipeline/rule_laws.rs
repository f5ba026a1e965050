//! When each rule fires, and what it then says.
use super::rules::{
    any_ends, any_occurs, base64_char, base_name_of, blob_at, blob_end, blob_to, command_image_of,
    encoded_command, encoded_interpreter_says, evaluated,
    executable_dropped_in_writable_location_says, first_occurring, first_token, high_abuse_tld_says,
    in_table, interpreter_from_host_app_says, listed, lolbin_network_use_says, marked_blob,
    masquerading_outside_system32_says, novel_binary_in_writable_location_says,
    process_fanout_burst_says, run_key_persistence_says, scheduled_task_registered_says,
    script_block_defence_evasion_says, script_block_encoded_command_says,
    script_block_obfuscated_says, script_block_remote_fetch_says, skip_white, stem_of, title_of,
    token_to, unquoted_end, unquoted_start, unsigned_image_from_writable_location_says,
    wmi_permanent_subscription_says, wmi_process_creation_says, Evidence, Facts, Finding, Known,
    CODE_CONSUMERS, DEFENCE_EVASION_MARKERS, ENCODED_ARGUMENTS, ENCODED_FLAGS, ENCODED_MARKERS,
    EXECUTABLE_EXTENSIONS, HIDDEN_FLAGS, HIGH_ABUSE_TLDS, INTERPRETERS, LOLBINS,
    OBFUSCATION_MARKERS, OFFICE_AND_BROWSERS, PERSISTENCE_KEYS, POWERSHELLS, REMOTE_ARGUMENTS,
    REMOTE_FETCH_MARKERS, SYSTEM_NAMES, WINDOWS_WORDS, WRITABLE_MARKERS,
};
use crate::likelihood::Likelihood;
use crate::model::event::TelemetryEvent;
use crate::model::kind::ProcessStart;
use crate::text::{
    decimal_text, folded, index_from, last_of, lemma_index_from, lemma_last_of, occurs, occurs_at,
    white,
};
use vstd::prelude::*;

verus! {

/// The names interpreters go by.
pub open spec fn interpreter_names() -> Seq<Seq<char>> {
    seq![
        "cmd.exe"@,
        "powershell.exe"@,
        "pwsh.exe"@,
        "wscript.exe"@,
        "cscript.exe"@,
        "mshta.exe"@,
        "rundll32.exe"@,
        "regsvr32.exe"@,
        "certutil.exe"@,
        "bitsadmin.exe"@,
    ]
}

/// The names of applications that have no business starting an interpreter.
pub open spec fn host_application_names() -> Seq<Seq<char>> {
    seq![
        "winword.exe"@,
        "excel.exe"@,
        "powerpnt.exe"@,
        "outlook.exe"@,
        "msaccess.exe"@,
        "acrord32.exe"@,
        "chrome.exe"@,
        "firefox.exe"@,
        "msedge.exe"@,
    ]
}

/// The names of binaries that belong to the system.
pub open spec fn system_binary_names() -> Seq<Seq<char>> {
    seq![
        "svchost"@,
        "lsass"@,
        "csrss"@,
        "winlogon"@,
        "services"@,
        "smss"@,
        "wininit"@,
        "explorer"@,
        "taskhostw"@,
        "spoolsv"@,
        "dllhost"@,
    ]
}

/// The names of signed binaries that are routinely abused.
pub open spec fn abused_binary_names() -> Seq<Seq<char>> {
    seq![
        "certutil"@,
        "bitsadmin"@,
        "regsvr32"@,
        "rundll32"@,
        "mshta"@,
        "wmic"@,
        "msbuild"@,
        "installutil"@,
        "regasm"@,
        "regsvcs"@,
    ]
}

/// Endings of names in much abused domains.
pub open spec fn abused_domains() -> Seq<Seq<char>> {
    seq![
        ".top"@,
        ".xyz"@,
        ".tk"@,
        ".ml"@,
        ".ga"@,
        ".cf"@,
        ".gq"@,
        ".work"@,
        ".click"@,
        ".zip"@,
    ]
}

/// Parts of paths to where any user may write.
pub open spec fn writable_places() -> Seq<Seq<char>> {
    seq![
        "\\temp\\"@,
        "\\tmp\\"@,
        "\\appdata\\"@,
        "\\downloads\\"@,
        "\\public\\"@,
        "\\programdata\\"@,
        "\\users\\"@,
    ]
}

/// Words of a script that hides what it does.
pub open spec fn hiding_words() -> Seq<Seq<char>> {
    seq![
        "frombase64string"@,
        "invoke-expression"@,
        "iex("@,
        "iex "@,
        "|iex"@,
        "[scriptblock]::create"@,
        "-bxor"@,
        "-join[char"@,
        "[char[]]"@,
        "[text.encoding]::"@,
    ]
}

/// Words of a script that fetches something.
pub open spec fn fetching_words() -> Seq<Seq<char>> {
    seq![
        "downloadstring"@,
        "downloaddata"@,
        "downloadfile"@,
        "net.webclient"@,
        "start-bitstransfer"@,
        "invoke-webrequest"@,
        "invoke-restmethod"@,
        "wget "@,
        "curl "@,
    ]
}

/// Words of a script that disarms the defences.
pub open spec fn disarming_words() -> Seq<Seq<char>> {
    seq![
        "amsiutils"@,
        "amsiinitfailed"@,
        "amsiscanbuffer"@,
        "set-mppreference"@,
        "add-mppreference"@,
        "exclusionpath"@,
        "exclusionprocess"@,
        "disableantispyware"@,
        "disablebehaviormonitoring"@,
        "disableioavprotection"@,
    ]
}

/// Endings of files that something will run.
pub open spec fn runnable_endings() -> Seq<Seq<char>> {
    seq![
        ".exe"@,
        ".dll"@,
        ".scr"@,
        ".sys"@,
        ".ps1"@,
        ".bat"@,
        ".cmd"@,
        ".vbs"@,
        ".vbe"@,
        ".js"@,
        ".jse"@,
        ".hta"@,
        ".lnk"@,
        ".wsf"@,
        ".msi"@,
        ".cpl"@,
    ]
}

/// Arguments that hand over an encoded command.
pub open spec fn encoding_flags() -> Seq<Seq<char>> {
    seq![
        "-encodedcommand"@,
        "-enc "@,
        "-e "@,
        "-ec "@,
    ]
}

/// Arguments that hide a window.
pub open spec fn hiding_flags() -> Seq<Seq<char>> {
    seq![
        "-windowstyle hidden"@,
        "-w hidden"@,
    ]
}

/// Words of a command line that reaches for something remote.
pub open spec fn remote_words() -> Seq<Seq<char>> {
    seq![
        "http://"@,
        "https://"@,
        "urlcache"@,
        "/i:http"@,
        "ftp://"@,
    ]
}

/// Parts of registry keys whose values survive a logon.
pub open spec fn logon_keys() -> Seq<Seq<char>> {
    seq![
        "\\currentversion\\run"@,
        "\\currentversion\\runonce"@,
        "\\winlogon\\shell"@,
        "\\currentversion\\explorer\\shell folders"@,
    ]
}

/// Consumers that run what they are given.
pub open spec fn code_consumers() -> Seq<Seq<char>> {
    seq![
        "commandlineeventconsumer"@,
        "activescripteventconsumer"@,
    ]
}

/// Words that sound like a part of Windows.
pub open spec fn windows_words() -> Seq<Seq<char>> {
    seq![
        "microsoft"@,
        "windows"@,
        "defender"@,
    ]
}

/// The names PowerShell goes by.
pub open spec fn powershell_names() -> Seq<Seq<char>> {
    seq![
        "powershell.exe"@,
        "pwsh.exe"@,
    ]
}

/// Arguments that are an encoded command whatever follows.
pub open spec fn encoding_arguments() -> Seq<Seq<char>> {
    seq![
        "-encodedcommand"@,
        "-encodedarguments"@,
    ]
}

/// Arguments that are an encoded command where base64 follows.
pub open spec fn encoding_markers() -> Seq<Seq<char>> {
    seq![
        "-enc "@,
        "-enc("@,
        "-ec "@,
        "-en "@,
    ]
}

/// Whether one of the given words is the whole of a text.
pub open spec fn among(words: Seq<Seq<char>>, text: Seq<char>) -> bool {
    exists|i: int| 0 <= i < words.len() && #[trigger] words[i] == text
}

/// Whether one of the given words stands somewhere in a text.
pub open spec fn stands(words: Seq<Seq<char>>, text: Seq<char>) -> bool {
    exists|i: int| 0 <= i < words.len() && occurs(text, #[trigger] words[i])
}

/// Whether a text ends with one of the given words.
pub open spec fn closes(words: Seq<Seq<char>>, text: Seq<char>) -> bool {
    exists|i: int|
        0 <= i < words.len() && occurs_at(text, #[trigger] words[i], text.len() - words[i].len())
}

/// Whether a table holds exactly the given words.
spec fn spells(table: Seq<&'static str>, words: Seq<Seq<char>>) -> bool {
    table.len() == words.len() && forall|i: int|
        0 <= i < table.len() ==> (#[trigger] table[i])@ == words[i]
}

proof fn lemma_table(table: Seq<&'static str>, words: Seq<Seq<char>>, text: Seq<char>)
    requires
        spells(table, words),
    ensures
        in_table(table, text) == among(words, text),
        any_occurs(table, text) == stands(words, text),
        any_ends(table, text) == closes(words, text),
        first_occurring(table, text) is Some == stands(words, text),
        first_occurring(table, text) is Some ==> exists|i: int|
            0 <= i < words.len() && #[trigger] words[i] == first_occurring(table, text)->0
                && occurs(text, words[i]) && forall|j: int|
                0 <= j < i ==> !occurs(text, #[trigger] words[j]),
    decreases table.len(),
{
    if in_table(table, text) {
        let i = choose|i: int| 0 <= i < table.len() && (#[trigger] table[i])@ == text;
        assert(words[i] == text);
    }
    if among(words, text) {
        let i = choose|i: int| 0 <= i < words.len() && #[trigger] words[i] == text;
        assert(table[i]@ == text);
    }
    if any_occurs(table, text) {
        let i = choose|i: int| 0 <= i < table.len() && occurs(text, (#[trigger] table[i])@);
        assert(occurs(text, words[i]));
    }
    if stands(words, text) {
        let i = choose|i: int| 0 <= i < words.len() && occurs(text, #[trigger] words[i]);
        assert(occurs(text, table[i]@));
    }
    if any_ends(table, text) {
        let i = choose|i: int|
            0 <= i < table.len() && occurs_at(
                text,
                (#[trigger] table[i])@,
                text.len() - table[i]@.len(),
            );
        assert(occurs_at(text, words[i], text.len() - words[i].len()));
    }
    if closes(words, text) {
        let i = choose|i: int|
            0 <= i < words.len() && occurs_at(
                text,
                #[trigger] words[i],
                text.len() - words[i].len(),
            );
        assert(occurs_at(text, table[i]@, text.len() - table[i]@.len()));
    }
    if table.len() > 0 {
        let rest = table.drop_first();
        let tail = words.drop_first();
        assert forall|i: int| 0 <= i < rest.len() implies (#[trigger] rest[i])@ == tail[i] by {
            assert(rest[i] == table[i + 1]);
        }
        lemma_table(rest, tail, text);
        assert(table[0]@ == words[0]);
        if occurs(text, words[0]) {
            assert(stands(words, text));
        } else {
            if stands(tail, text) {
                let i = choose|i: int| 0 <= i < tail.len() && occurs(text, #[trigger] tail[i]);
                assert(occurs(text, words[i + 1]));
                let k = choose|k: int|
                    0 <= k < tail.len() && #[trigger] tail[k] == first_occurring(rest, text)->0
                        && occurs(text, tail[k]) && forall|j: int|
                        0 <= j < k ==> !occurs(text, #[trigger] tail[j]);
                assert(words[k + 1] == tail[k]);
                assert forall|j: int| 0 <= j < k + 1 implies !occurs(text, #[trigger] words[j]) by {
                    if j > 0 {
                        assert(!occurs(text, tail[j - 1]));
                    }
                }
            }
            if stands(words, text) {
                let i = choose|i: int| 0 <= i < words.len() && occurs(text, #[trigger] words[i]);
                assert(i > 0);
                assert(occurs(text, tail[i - 1]));
            }
        }
    }
}

proof fn lemma_interpreter_names(text: Seq<char>)
    ensures
        in_table(INTERPRETERS@, text) == among(interpreter_names(), text),
        any_occurs(INTERPRETERS@, text) == stands(interpreter_names(), text),
        any_ends(INTERPRETERS@, text) == closes(interpreter_names(), text),
        first_occurring(INTERPRETERS@, text) is Some == stands(interpreter_names(), text),
        first_occurring(INTERPRETERS@, text) is Some ==> exists|i: int|
            0 <= i < interpreter_names().len() && #[trigger] interpreter_names()[i] == first_occurring(INTERPRETERS@, text)->0
                && occurs(text, interpreter_names()[i]) && forall|j: int|
                0 <= j < i ==> !occurs(text, #[trigger] interpreter_names()[j]),
{
    assert(spells(INTERPRETERS@, interpreter_names())) by {
        assert(INTERPRETERS@[0]@ == "cmd.exe"@);
        assert(INTERPRETERS@[1]@ == "powershell.exe"@);
        assert(INTERPRETERS@[2]@ == "pwsh.exe"@);
        assert(INTERPRETERS@[3]@ == "wscript.exe"@);
        assert(INTERPRETERS@[4]@ == "cscript.exe"@);
        assert(INTERPRETERS@[5]@ == "mshta.exe"@);
        assert(INTERPRETERS@[6]@ == "rundll32.exe"@);
        assert(INTERPRETERS@[7]@ == "regsvr32.exe"@);
        assert(INTERPRETERS@[8]@ == "certutil.exe"@);
        assert(INTERPRETERS@[9]@ == "bitsadmin.exe"@);
    }
    lemma_table(INTERPRETERS@, interpreter_names(), text);
}

proof fn lemma_host_application_names(text: Seq<char>)
    ensures
        in_table(OFFICE_AND_BROWSERS@, text) == among(host_application_names(), text),
        any_occurs(OFFICE_AND_BROWSERS@, text) == stands(host_application_names(), text),
        any_ends(OFFICE_AND_BROWSERS@, text) == closes(host_application_names(), text),
        first_occurring(OFFICE_AND_BROWSERS@, text) is Some == stands(host_application_names(), text),
        first_occurring(OFFICE_AND_BROWSERS@, text) is Some ==> exists|i: int|
            0 <= i < host_application_names().len() && #[trigger] host_application_names()[i] == first_occurring(OFFICE_AND_BROWSERS@, text)->0
                && occurs(text, host_application_names()[i]) && forall|j: int|
                0 <= j < i ==> !occurs(text, #[trigger] host_application_names()[j]),
{
    assert(spells(OFFICE_AND_BROWSERS@, host_application_names())) by {
        assert(OFFICE_AND_BROWSERS@[0]@ == "winword.exe"@);
        assert(OFFICE_AND_BROWSERS@[1]@ == "excel.exe"@);
        assert(OFFICE_AND_BROWSERS@[2]@ == "powerpnt.exe"@);
        assert(OFFICE_AND_BROWSERS@[3]@ == "outlook.exe"@);
        assert(OFFICE_AND_BROWSERS@[4]@ == "msaccess.exe"@);
        assert(OFFICE_AND_BROWSERS@[5]@ == "acrord32.exe"@);
        assert(OFFICE_AND_BROWSERS@[6]@ == "chrome.exe"@);
        assert(OFFICE_AND_BROWSERS@[7]@ == "firefox.exe"@);
        assert(OFFICE_AND_BROWSERS@[8]@ == "msedge.exe"@);
    }
    lemma_table(OFFICE_AND_BROWSERS@, host_application_names(), text);
}

proof fn lemma_system_binary_names(text: Seq<char>)
    ensures
        in_table(SYSTEM_NAMES@, text) == among(system_binary_names(), text),
        any_occurs(SYSTEM_NAMES@, text) == stands(system_binary_names(), text),
        any_ends(SYSTEM_NAMES@, text) == closes(system_binary_names(), text),
        first_occurring(SYSTEM_NAMES@, text) is Some == stands(system_binary_names(), text),
        first_occurring(SYSTEM_NAMES@, text) is Some ==> exists|i: int|
            0 <= i < system_binary_names().len() && #[trigger] system_binary_names()[i] == first_occurring(SYSTEM_NAMES@, text)->0
                && occurs(text, system_binary_names()[i]) && forall|j: int|
                0 <= j < i ==> !occurs(text, #[trigger] system_binary_names()[j]),
{
    assert(spells(SYSTEM_NAMES@, system_binary_names())) by {
        assert(SYSTEM_NAMES@[0]@ == "svchost"@);
        assert(SYSTEM_NAMES@[1]@ == "lsass"@);
        assert(SYSTEM_NAMES@[2]@ == "csrss"@);
        assert(SYSTEM_NAMES@[3]@ == "winlogon"@);
        assert(SYSTEM_NAMES@[4]@ == "services"@);
        assert(SYSTEM_NAMES@[5]@ == "smss"@);
        assert(SYSTEM_NAMES@[6]@ == "wininit"@);
        assert(SYSTEM_NAMES@[7]@ == "explorer"@);
        assert(SYSTEM_NAMES@[8]@ == "taskhostw"@);
        assert(SYSTEM_NAMES@[9]@ == "spoolsv"@);
        assert(SYSTEM_NAMES@[10]@ == "dllhost"@);
    }
    lemma_table(SYSTEM_NAMES@, system_binary_names(), text);
}

proof fn lemma_abused_binary_names(text: Seq<char>)
    ensures
        in_table(LOLBINS@, text) == among(abused_binary_names(), text),
        any_occurs(LOLBINS@, text) == stands(abused_binary_names(), text),
        any_ends(LOLBINS@, text) == closes(abused_binary_names(), text),
        first_occurring(LOLBINS@, text) is Some == stands(abused_binary_names(), text),
        first_occurring(LOLBINS@, text) is Some ==> exists|i: int|
            0 <= i < abused_binary_names().len() && #[trigger] abused_binary_names()[i] == first_occurring(LOLBINS@, text)->0
                && occurs(text, abused_binary_names()[i]) && forall|j: int|
                0 <= j < i ==> !occurs(text, #[trigger] abused_binary_names()[j]),
{
    assert(spells(LOLBINS@, abused_binary_names())) by {
        assert(LOLBINS@[0]@ == "certutil"@);
        assert(LOLBINS@[1]@ == "bitsadmin"@);
        assert(LOLBINS@[2]@ == "regsvr32"@);
        assert(LOLBINS@[3]@ == "rundll32"@);
        assert(LOLBINS@[4]@ == "mshta"@);
        assert(LOLBINS@[5]@ == "wmic"@);
        assert(LOLBINS@[6]@ == "msbuild"@);
        assert(LOLBINS@[7]@ == "installutil"@);
        assert(LOLBINS@[8]@ == "regasm"@);
        assert(LOLBINS@[9]@ == "regsvcs"@);
    }
    lemma_table(LOLBINS@, abused_binary_names(), text);
}

proof fn lemma_abused_domains(text: Seq<char>)
    ensures
        in_table(HIGH_ABUSE_TLDS@, text) == among(abused_domains(), text),
        any_occurs(HIGH_ABUSE_TLDS@, text) == stands(abused_domains(), text),
        any_ends(HIGH_ABUSE_TLDS@, text) == closes(abused_domains(), text),
        first_occurring(HIGH_ABUSE_TLDS@, text) is Some == stands(abused_domains(), text),
        first_occurring(HIGH_ABUSE_TLDS@, text) is Some ==> exists|i: int|
            0 <= i < abused_domains().len() && #[trigger] abused_domains()[i] == first_occurring(HIGH_ABUSE_TLDS@, text)->0
                && occurs(text, abused_domains()[i]) && forall|j: int|
                0 <= j < i ==> !occurs(text, #[trigger] abused_domains()[j]),
{
    assert(spells(HIGH_ABUSE_TLDS@, abused_domains())) by {
        assert(HIGH_ABUSE_TLDS@[0]@ == ".top"@);
        assert(HIGH_ABUSE_TLDS@[1]@ == ".xyz"@);
        assert(HIGH_ABUSE_TLDS@[2]@ == ".tk"@);
        assert(HIGH_ABUSE_TLDS@[3]@ == ".ml"@);
        assert(HIGH_ABUSE_TLDS@[4]@ == ".ga"@);
        assert(HIGH_ABUSE_TLDS@[5]@ == ".cf"@);
        assert(HIGH_ABUSE_TLDS@[6]@ == ".gq"@);
        assert(HIGH_ABUSE_TLDS@[7]@ == ".work"@);
        assert(HIGH_ABUSE_TLDS@[8]@ == ".click"@);
        assert(HIGH_ABUSE_TLDS@[9]@ == ".zip"@);
    }
    lemma_table(HIGH_ABUSE_TLDS@, abused_domains(), text);
}

proof fn lemma_writable_places(text: Seq<char>)
    ensures
        in_table(WRITABLE_MARKERS@, text) == among(writable_places(), text),
        any_occurs(WRITABLE_MARKERS@, text) == stands(writable_places(), text),
        any_ends(WRITABLE_MARKERS@, text) == closes(writable_places(), text),
        first_occurring(WRITABLE_MARKERS@, text) is Some == stands(writable_places(), text),
        first_occurring(WRITABLE_MARKERS@, text) is Some ==> exists|i: int|
            0 <= i < writable_places().len() && #[trigger] writable_places()[i] == first_occurring(WRITABLE_MARKERS@, text)->0
                && occurs(text, writable_places()[i]) && forall|j: int|
                0 <= j < i ==> !occurs(text, #[trigger] writable_places()[j]),
{
    assert(spells(WRITABLE_MARKERS@, writable_places())) by {
        assert(WRITABLE_MARKERS@[0]@ == "\\temp\\"@);
        assert(WRITABLE_MARKERS@[1]@ == "\\tmp\\"@);
        assert(WRITABLE_MARKERS@[2]@ == "\\appdata\\"@);
        assert(WRITABLE_MARKERS@[3]@ == "\\downloads\\"@);
        assert(WRITABLE_MARKERS@[4]@ == "\\public\\"@);
        assert(WRITABLE_MARKERS@[5]@ == "\\programdata\\"@);
        assert(WRITABLE_MARKERS@[6]@ == "\\users\\"@);
    }
    lemma_table(WRITABLE_MARKERS@, writable_places(), text);
}

proof fn lemma_hiding_words(text: Seq<char>)
    ensures
        in_table(OBFUSCATION_MARKERS@, text) == among(hiding_words(), text),
        any_occurs(OBFUSCATION_MARKERS@, text) == stands(hiding_words(), text),
        any_ends(OBFUSCATION_MARKERS@, text) == closes(hiding_words(), text),
        first_occurring(OBFUSCATION_MARKERS@, text) is Some == stands(hiding_words(), text),
        first_occurring(OBFUSCATION_MARKERS@, text) is Some ==> exists|i: int|
            0 <= i < hiding_words().len() && #[trigger] hiding_words()[i] == first_occurring(OBFUSCATION_MARKERS@, text)->0
                && occurs(text, hiding_words()[i]) && forall|j: int|
                0 <= j < i ==> !occurs(text, #[trigger] hiding_words()[j]),
{
    assert(spells(OBFUSCATION_MARKERS@, hiding_words())) by {
        assert(OBFUSCATION_MARKERS@[0]@ == "frombase64string"@);
        assert(OBFUSCATION_MARKERS@[1]@ == "invoke-expression"@);
        assert(OBFUSCATION_MARKERS@[2]@ == "iex("@);
        assert(OBFUSCATION_MARKERS@[3]@ == "iex "@);
        assert(OBFUSCATION_MARKERS@[4]@ == "|iex"@);
        assert(OBFUSCATION_MARKERS@[5]@ == "[scriptblock]::create"@);
        assert(OBFUSCATION_MARKERS@[6]@ == "-bxor"@);
        assert(OBFUSCATION_MARKERS@[7]@ == "-join[char"@);
        assert(OBFUSCATION_MARKERS@[8]@ == "[char[]]"@);
        assert(OBFUSCATION_MARKERS@[9]@ == "[text.encoding]::"@);
    }
    lemma_table(OBFUSCATION_MARKERS@, hiding_words(), text);
}

proof fn lemma_fetching_words(text: Seq<char>)
    ensures
        in_table(REMOTE_FETCH_MARKERS@, text) == among(fetching_words(), text),
        any_occurs(REMOTE_FETCH_MARKERS@, text) == stands(fetching_words(), text),
        any_ends(REMOTE_FETCH_MARKERS@, text) == closes(fetching_words(), text),
        first_occurring(REMOTE_FETCH_MARKERS@, text) is Some == stands(fetching_words(), text),
        first_occurring(REMOTE_FETCH_MARKERS@, text) is Some ==> exists|i: int|
            0 <= i < fetching_words().len() && #[trigger] fetching_words()[i] == first_occurring(REMOTE_FETCH_MARKERS@, text)->0
                && occurs(text, fetching_words()[i]) && forall|j: int|
                0 <= j < i ==> !occurs(text, #[trigger] fetching_words()[j]),
{
    assert(spells(REMOTE_FETCH_MARKERS@, fetching_words())) by {
        assert(REMOTE_FETCH_MARKERS@[0]@ == "downloadstring"@);
        assert(REMOTE_FETCH_MARKERS@[1]@ == "downloaddata"@);
        assert(REMOTE_FETCH_MARKERS@[2]@ == "downloadfile"@);
        assert(REMOTE_FETCH_MARKERS@[3]@ == "net.webclient"@);
        assert(REMOTE_FETCH_MARKERS@[4]@ == "start-bitstransfer"@);
        assert(REMOTE_FETCH_MARKERS@[5]@ == "invoke-webrequest"@);
        assert(REMOTE_FETCH_MARKERS@[6]@ == "invoke-restmethod"@);
        assert(REMOTE_FETCH_MARKERS@[7]@ == "wget "@);
        assert(REMOTE_FETCH_MARKERS@[8]@ == "curl "@);
    }
    lemma_table(REMOTE_FETCH_MARKERS@, fetching_words(), text);
}

proof fn lemma_disarming_words(text: Seq<char>)
    ensures
        in_table(DEFENCE_EVASION_MARKERS@, text) == among(disarming_words(), text),
        any_occurs(DEFENCE_EVASION_MARKERS@, text) == stands(disarming_words(), text),
        any_ends(DEFENCE_EVASION_MARKERS@, text) == closes(disarming_words(), text),
        first_occurring(DEFENCE_EVASION_MARKERS@, text) is Some == stands(disarming_words(), text),
        first_occurring(DEFENCE_EVASION_MARKERS@, text) is Some ==> exists|i: int|
            0 <= i < disarming_words().len() && #[trigger] disarming_words()[i] == first_occurring(DEFENCE_EVASION_MARKERS@, text)->0
                && occurs(text, disarming_words()[i]) && forall|j: int|
                0 <= j < i ==> !occurs(text, #[trigger] disarming_words()[j]),
{
    assert(spells(DEFENCE_EVASION_MARKERS@, disarming_words())) by {
        assert(DEFENCE_EVASION_MARKERS@[0]@ == "amsiutils"@);
        assert(DEFENCE_EVASION_MARKERS@[1]@ == "amsiinitfailed"@);
        assert(DEFENCE_EVASION_MARKERS@[2]@ == "amsiscanbuffer"@);
        assert(DEFENCE_EVASION_MARKERS@[3]@ == "set-mppreference"@);
        assert(DEFENCE_EVASION_MARKERS@[4]@ == "add-mppreference"@);
        assert(DEFENCE_EVASION_MARKERS@[5]@ == "exclusionpath"@);
        assert(DEFENCE_EVASION_MARKERS@[6]@ == "exclusionprocess"@);
        assert(DEFENCE_EVASION_MARKERS@[7]@ == "disableantispyware"@);
        assert(DEFENCE_EVASION_MARKERS@[8]@ == "disablebehaviormonitoring"@);
        assert(DEFENCE_EVASION_MARKERS@[9]@ == "disableioavprotection"@);
    }
    lemma_table(DEFENCE_EVASION_MARKERS@, disarming_words(), text);
}

proof fn lemma_runnable_endings(text: Seq<char>)
    ensures
        in_table(EXECUTABLE_EXTENSIONS@, text) == among(runnable_endings(), text),
        any_occurs(EXECUTABLE_EXTENSIONS@, text) == stands(runnable_endings(), text),
        any_ends(EXECUTABLE_EXTENSIONS@, text) == closes(runnable_endings(), text),
        first_occurring(EXECUTABLE_EXTENSIONS@, text) is Some == stands(runnable_endings(), text),
        first_occurring(EXECUTABLE_EXTENSIONS@, text) is Some ==> exists|i: int|
            0 <= i < runnable_endings().len() && #[trigger] runnable_endings()[i] == first_occurring(EXECUTABLE_EXTENSIONS@, text)->0
                && occurs(text, runnable_endings()[i]) && forall|j: int|
                0 <= j < i ==> !occurs(text, #[trigger] runnable_endings()[j]),
{
    assert(spells(EXECUTABLE_EXTENSIONS@, runnable_endings())) by {
        assert(EXECUTABLE_EXTENSIONS@[0]@ == ".exe"@);
        assert(EXECUTABLE_EXTENSIONS@[1]@ == ".dll"@);
        assert(EXECUTABLE_EXTENSIONS@[2]@ == ".scr"@);
        assert(EXECUTABLE_EXTENSIONS@[3]@ == ".sys"@);
        assert(EXECUTABLE_EXTENSIONS@[4]@ == ".ps1"@);
        assert(EXECUTABLE_EXTENSIONS@[5]@ == ".bat"@);
        assert(EXECUTABLE_EXTENSIONS@[6]@ == ".cmd"@);
        assert(EXECUTABLE_EXTENSIONS@[7]@ == ".vbs"@);
        assert(EXECUTABLE_EXTENSIONS@[8]@ == ".vbe"@);
        assert(EXECUTABLE_EXTENSIONS@[9]@ == ".js"@);
        assert(EXECUTABLE_EXTENSIONS@[10]@ == ".jse"@);
        assert(EXECUTABLE_EXTENSIONS@[11]@ == ".hta"@);
        assert(EXECUTABLE_EXTENSIONS@[12]@ == ".lnk"@);
        assert(EXECUTABLE_EXTENSIONS@[13]@ == ".wsf"@);
        assert(EXECUTABLE_EXTENSIONS@[14]@ == ".msi"@);
        assert(EXECUTABLE_EXTENSIONS@[15]@ == ".cpl"@);
    }
    lemma_table(EXECUTABLE_EXTENSIONS@, runnable_endings(), text);
}

proof fn lemma_encoding_flags(text: Seq<char>)
    ensures
        in_table(ENCODED_FLAGS@, text) == among(encoding_flags(), text),
        any_occurs(ENCODED_FLAGS@, text) == stands(encoding_flags(), text),
        any_ends(ENCODED_FLAGS@, text) == closes(encoding_flags(), text),
        first_occurring(ENCODED_FLAGS@, text) is Some == stands(encoding_flags(), text),
        first_occurring(ENCODED_FLAGS@, text) is Some ==> exists|i: int|
            0 <= i < encoding_flags().len() && #[trigger] encoding_flags()[i] == first_occurring(ENCODED_FLAGS@, text)->0
                && occurs(text, encoding_flags()[i]) && forall|j: int|
                0 <= j < i ==> !occurs(text, #[trigger] encoding_flags()[j]),
{
    assert(spells(ENCODED_FLAGS@, encoding_flags())) by {
        assert(ENCODED_FLAGS@[0]@ == "-encodedcommand"@);
        assert(ENCODED_FLAGS@[1]@ == "-enc "@);
        assert(ENCODED_FLAGS@[2]@ == "-e "@);
        assert(ENCODED_FLAGS@[3]@ == "-ec "@);
    }
    lemma_table(ENCODED_FLAGS@, encoding_flags(), text);
}

proof fn lemma_hiding_flags(text: Seq<char>)
    ensures
        in_table(HIDDEN_FLAGS@, text) == among(hiding_flags(), text),
        any_occurs(HIDDEN_FLAGS@, text) == stands(hiding_flags(), text),
        any_ends(HIDDEN_FLAGS@, text) == closes(hiding_flags(), text),
        first_occurring(HIDDEN_FLAGS@, text) is Some == stands(hiding_flags(), text),
        first_occurring(HIDDEN_FLAGS@, text) is Some ==> exists|i: int|
            0 <= i < hiding_flags().len() && #[trigger] hiding_flags()[i] == first_occurring(HIDDEN_FLAGS@, text)->0
                && occurs(text, hiding_flags()[i]) && forall|j: int|
                0 <= j < i ==> !occurs(text, #[trigger] hiding_flags()[j]),
{
    assert(spells(HIDDEN_FLAGS@, hiding_flags())) by {
        assert(HIDDEN_FLAGS@[0]@ == "-windowstyle hidden"@);
        assert(HIDDEN_FLAGS@[1]@ == "-w hidden"@);
    }
    lemma_table(HIDDEN_FLAGS@, hiding_flags(), text);
}

proof fn lemma_remote_words(text: Seq<char>)
    ensures
        in_table(REMOTE_ARGUMENTS@, text) == among(remote_words(), text),
        any_occurs(REMOTE_ARGUMENTS@, text) == stands(remote_words(), text),
        any_ends(REMOTE_ARGUMENTS@, text) == closes(remote_words(), text),
        first_occurring(REMOTE_ARGUMENTS@, text) is Some == stands(remote_words(), text),
        first_occurring(REMOTE_ARGUMENTS@, text) is Some ==> exists|i: int|
            0 <= i < remote_words().len() && #[trigger] remote_words()[i] == first_occurring(REMOTE_ARGUMENTS@, text)->0
                && occurs(text, remote_words()[i]) && forall|j: int|
                0 <= j < i ==> !occurs(text, #[trigger] remote_words()[j]),
{
    assert(spells(REMOTE_ARGUMENTS@, remote_words())) by {
        assert(REMOTE_ARGUMENTS@[0]@ == "http://"@);
        assert(REMOTE_ARGUMENTS@[1]@ == "https://"@);
        assert(REMOTE_ARGUMENTS@[2]@ == "urlcache"@);
        assert(REMOTE_ARGUMENTS@[3]@ == "/i:http"@);
        assert(REMOTE_ARGUMENTS@[4]@ == "ftp://"@);
    }
    lemma_table(REMOTE_ARGUMENTS@, remote_words(), text);
}

proof fn lemma_logon_keys(text: Seq<char>)
    ensures
        in_table(PERSISTENCE_KEYS@, text) == among(logon_keys(), text),
        any_occurs(PERSISTENCE_KEYS@, text) == stands(logon_keys(), text),
        any_ends(PERSISTENCE_KEYS@, text) == closes(logon_keys(), text),
        first_occurring(PERSISTENCE_KEYS@, text) is Some == stands(logon_keys(), text),
        first_occurring(PERSISTENCE_KEYS@, text) is Some ==> exists|i: int|
            0 <= i < logon_keys().len() && #[trigger] logon_keys()[i] == first_occurring(PERSISTENCE_KEYS@, text)->0
                && occurs(text, logon_keys()[i]) && forall|j: int|
                0 <= j < i ==> !occurs(text, #[trigger] logon_keys()[j]),
{
    assert(spells(PERSISTENCE_KEYS@, logon_keys())) by {
        assert(PERSISTENCE_KEYS@[0]@ == "\\currentversion\\run"@);
        assert(PERSISTENCE_KEYS@[1]@ == "\\currentversion\\runonce"@);
        assert(PERSISTENCE_KEYS@[2]@ == "\\winlogon\\shell"@);
        assert(PERSISTENCE_KEYS@[3]@ == "\\currentversion\\explorer\\shell folders"@);
    }
    lemma_table(PERSISTENCE_KEYS@, logon_keys(), text);
}

proof fn lemma_code_consumers(text: Seq<char>)
    ensures
        in_table(CODE_CONSUMERS@, text) == among(code_consumers(), text),
        any_occurs(CODE_CONSUMERS@, text) == stands(code_consumers(), text),
        any_ends(CODE_CONSUMERS@, text) == closes(code_consumers(), text),
        first_occurring(CODE_CONSUMERS@, text) is Some == stands(code_consumers(), text),
        first_occurring(CODE_CONSUMERS@, text) is Some ==> exists|i: int|
            0 <= i < code_consumers().len() && #[trigger] code_consumers()[i] == first_occurring(CODE_CONSUMERS@, text)->0
                && occurs(text, code_consumers()[i]) && forall|j: int|
                0 <= j < i ==> !occurs(text, #[trigger] code_consumers()[j]),
{
    assert(spells(CODE_CONSUMERS@, code_consumers())) by {
        assert(CODE_CONSUMERS@[0]@ == "commandlineeventconsumer"@);
        assert(CODE_CONSUMERS@[1]@ == "activescripteventconsumer"@);
    }
    lemma_table(CODE_CONSUMERS@, code_consumers(), text);
}

proof fn lemma_windows_words(text: Seq<char>)
    ensures
        in_table(WINDOWS_WORDS@, text) == among(windows_words(), text),
        any_occurs(WINDOWS_WORDS@, text) == stands(windows_words(), text),
        any_ends(WINDOWS_WORDS@, text) == closes(windows_words(), text),
        first_occurring(WINDOWS_WORDS@, text) is Some == stands(windows_words(), text),
        first_occurring(WINDOWS_WORDS@, text) is Some ==> exists|i: int|
            0 <= i < windows_words().len() && #[trigger] windows_words()[i] == first_occurring(WINDOWS_WORDS@, text)->0
                && occurs(text, windows_words()[i]) && forall|j: int|
                0 <= j < i ==> !occurs(text, #[trigger] windows_words()[j]),
{
    assert(spells(WINDOWS_WORDS@, windows_words())) by {
        assert(WINDOWS_WORDS@[0]@ == "microsoft"@);
        assert(WINDOWS_WORDS@[1]@ == "windows"@);
        assert(WINDOWS_WORDS@[2]@ == "defender"@);
    }
    lemma_table(WINDOWS_WORDS@, windows_words(), text);
}

proof fn lemma_powershell_names(text: Seq<char>)
    ensures
        in_table(POWERSHELLS@, text) == among(powershell_names(), text),
        any_occurs(POWERSHELLS@, text) == stands(powershell_names(), text),
        any_ends(POWERSHELLS@, text) == closes(powershell_names(), text),
        first_occurring(POWERSHELLS@, text) is Some == stands(powershell_names(), text),
        first_occurring(POWERSHELLS@, text) is Some ==> exists|i: int|
            0 <= i < powershell_names().len() && #[trigger] powershell_names()[i] == first_occurring(POWERSHELLS@, text)->0
                && occurs(text, powershell_names()[i]) && forall|j: int|
                0 <= j < i ==> !occurs(text, #[trigger] powershell_names()[j]),
{
    assert(spells(POWERSHELLS@, powershell_names())) by {
        assert(POWERSHELLS@[0]@ == "powershell.exe"@);
        assert(POWERSHELLS@[1]@ == "pwsh.exe"@);
    }
    lemma_table(POWERSHELLS@, powershell_names(), text);
}

proof fn lemma_encoding_arguments(text: Seq<char>)
    ensures
        in_table(ENCODED_ARGUMENTS@, text) == among(encoding_arguments(), text),
        any_occurs(ENCODED_ARGUMENTS@, text) == stands(encoding_arguments(), text),
        any_ends(ENCODED_ARGUMENTS@, text) == closes(encoding_arguments(), text),
        first_occurring(ENCODED_ARGUMENTS@, text) is Some == stands(encoding_arguments(), text),
        first_occurring(ENCODED_ARGUMENTS@, text) is Some ==> exists|i: int|
            0 <= i < encoding_arguments().len() && #[trigger] encoding_arguments()[i] == first_occurring(ENCODED_ARGUMENTS@, text)->0
                && occurs(text, encoding_arguments()[i]) && forall|j: int|
                0 <= j < i ==> !occurs(text, #[trigger] encoding_arguments()[j]),
{
    assert(spells(ENCODED_ARGUMENTS@, encoding_arguments())) by {
        assert(ENCODED_ARGUMENTS@[0]@ == "-encodedcommand"@);
        assert(ENCODED_ARGUMENTS@[1]@ == "-encodedarguments"@);
    }
    lemma_table(ENCODED_ARGUMENTS@, encoding_arguments(), text);
}

proof fn lemma_encoding_markers(text: Seq<char>)
    ensures
        in_table(ENCODED_MARKERS@, text) == among(encoding_markers(), text),
        any_occurs(ENCODED_MARKERS@, text) == stands(encoding_markers(), text),
        any_ends(ENCODED_MARKERS@, text) == closes(encoding_markers(), text),
        first_occurring(ENCODED_MARKERS@, text) is Some == stands(encoding_markers(), text),
        first_occurring(ENCODED_MARKERS@, text) is Some ==> exists|i: int|
            0 <= i < encoding_markers().len() && #[trigger] encoding_markers()[i] == first_occurring(ENCODED_MARKERS@, text)->0
                && occurs(text, encoding_markers()[i]) && forall|j: int|
                0 <= j < i ==> !occurs(text, #[trigger] encoding_markers()[j]),
{
    assert(spells(ENCODED_MARKERS@, encoding_markers())) by {
        assert(ENCODED_MARKERS@[0]@ == "-enc "@);
        assert(ENCODED_MARKERS@[1]@ == "-enc("@);
        assert(ENCODED_MARKERS@[2]@ == "-ec "@);
        assert(ENCODED_MARKERS@[3]@ == "-en "@);
    }
    lemma_table(ENCODED_MARKERS@, encoding_markers(), text);
}

/// A finding is reported where its rule gives it, and nowhere else.
proof fn lemma_reported(event: TelemetryEvent, facts: Known, x: Evidence)
    ensures
        evaluated(event, facts).contains(x) <==> {
            ||| encoded_interpreter_says(event, facts) == Some(x)
            ||| interpreter_from_host_app_says(event, facts) == Some(x)
            ||| masquerading_outside_system32_says(event, facts) == Some(x)
            ||| lolbin_network_use_says(event, facts) == Some(x)
            ||| run_key_persistence_says(event, facts) == Some(x)
            ||| high_abuse_tld_says(event, facts) == Some(x)
            ||| novel_binary_in_writable_location_says(event, facts) == Some(x)
            ||| process_fanout_burst_says(event, facts) == Some(x)
            ||| script_block_encoded_command_says(event, facts) == Some(x)
            ||| script_block_obfuscated_says(event, facts) == Some(x)
            ||| script_block_remote_fetch_says(event, facts) == Some(x)
            ||| script_block_defence_evasion_says(event, facts) == Some(x)
            ||| wmi_process_creation_says(event, facts) == Some(x)
            ||| wmi_permanent_subscription_says(event, facts) == Some(x)
            ||| scheduled_task_registered_says(event, facts) == Some(x)
            ||| unsigned_image_from_writable_location_says(event, facts) == Some(x)
            ||| executable_dropped_in_writable_location_says(event, facts) == Some(x)
        },
{
    let p0 = listed(encoded_interpreter_says(event, facts));
    assert(p0.contains(x) <==> encoded_interpreter_says(event, facts) == Some(x)) by {
        if p0.len() > 0 {
            assert(p0[0] == encoded_interpreter_says(event, facts)->0);
        }
    }
    let p1 = listed(interpreter_from_host_app_says(event, facts));
    assert(p1.contains(x) <==> interpreter_from_host_app_says(event, facts) == Some(x)) by {
        if p1.len() > 0 {
            assert(p1[0] == interpreter_from_host_app_says(event, facts)->0);
        }
    }
    let p2 = listed(masquerading_outside_system32_says(event, facts));
    assert(p2.contains(x) <==> masquerading_outside_system32_says(event, facts) == Some(x)) by {
        if p2.len() > 0 {
            assert(p2[0] == masquerading_outside_system32_says(event, facts)->0);
        }
    }
    let p3 = listed(lolbin_network_use_says(event, facts));
    assert(p3.contains(x) <==> lolbin_network_use_says(event, facts) == Some(x)) by {
        if p3.len() > 0 {
            assert(p3[0] == lolbin_network_use_says(event, facts)->0);
        }
    }
    let p4 = listed(run_key_persistence_says(event, facts));
    assert(p4.contains(x) <==> run_key_persistence_says(event, facts) == Some(x)) by {
        if p4.len() > 0 {
            assert(p4[0] == run_key_persistence_says(event, facts)->0);
        }
    }
    let p5 = listed(high_abuse_tld_says(event, facts));
    assert(p5.contains(x) <==> high_abuse_tld_says(event, facts) == Some(x)) by {
        if p5.len() > 0 {
            assert(p5[0] == high_abuse_tld_says(event, facts)->0);
        }
    }
    let p6 = listed(novel_binary_in_writable_location_says(event, facts));
    assert(p6.contains(x) <==> novel_binary_in_writable_location_says(event, facts) == Some(x)) by {
        if p6.len() > 0 {
            assert(p6[0] == novel_binary_in_writable_location_says(event, facts)->0);
        }
    }
    let p7 = listed(process_fanout_burst_says(event, facts));
    assert(p7.contains(x) <==> process_fanout_burst_says(event, facts) == Some(x)) by {
        if p7.len() > 0 {
            assert(p7[0] == process_fanout_burst_says(event, facts)->0);
        }
    }
    let p8 = listed(script_block_encoded_command_says(event, facts));
    assert(p8.contains(x) <==> script_block_encoded_command_says(event, facts) == Some(x)) by {
        if p8.len() > 0 {
            assert(p8[0] == script_block_encoded_command_says(event, facts)->0);
        }
    }
    let p9 = listed(script_block_obfuscated_says(event, facts));
    assert(p9.contains(x) <==> script_block_obfuscated_says(event, facts) == Some(x)) by {
        if p9.len() > 0 {
            assert(p9[0] == script_block_obfuscated_says(event, facts)->0);
        }
    }
    let p10 = listed(script_block_remote_fetch_says(event, facts));
    assert(p10.contains(x) <==> script_block_remote_fetch_says(event, facts) == Some(x)) by {
        if p10.len() > 0 {
            assert(p10[0] == script_block_remote_fetch_says(event, facts)->0);
        }
    }
    let p11 = listed(script_block_defence_evasion_says(event, facts));
    assert(p11.contains(x) <==> script_block_defence_evasion_says(event, facts) == Some(x)) by {
        if p11.len() > 0 {
            assert(p11[0] == script_block_defence_evasion_says(event, facts)->0);
        }
    }
    let p12 = listed(wmi_process_creation_says(event, facts));
    assert(p12.contains(x) <==> wmi_process_creation_says(event, facts) == Some(x)) by {
        if p12.len() > 0 {
            assert(p12[0] == wmi_process_creation_says(event, facts)->0);
        }
    }
    let p13 = listed(wmi_permanent_subscription_says(event, facts));
    assert(p13.contains(x) <==> wmi_permanent_subscription_says(event, facts) == Some(x)) by {
        if p13.len() > 0 {
            assert(p13[0] == wmi_permanent_subscription_says(event, facts)->0);
        }
    }
    let p14 = listed(scheduled_task_registered_says(event, facts));
    assert(p14.contains(x) <==> scheduled_task_registered_says(event, facts) == Some(x)) by {
        if p14.len() > 0 {
            assert(p14[0] == scheduled_task_registered_says(event, facts)->0);
        }
    }
    let p15 = listed(unsigned_image_from_writable_location_says(event, facts));
    assert(p15.contains(x) <==> unsigned_image_from_writable_location_says(event, facts) == Some(x)) by {
        if p15.len() > 0 {
            assert(p15[0] == unsigned_image_from_writable_location_says(event, facts)->0);
        }
    }
    let p16 = listed(executable_dropped_in_writable_location_says(event, facts));
    assert(p16.contains(x) <==> executable_dropped_in_writable_location_says(event, facts) == Some(x)) by {
        if p16.len() > 0 {
            assert(p16[0] == executable_dropped_in_writable_location_says(event, facts)->0);
        }
    }
    let s0 = p0;
    let s1 = s0 + p1;
    lemma_joined(s0, p1, x);
    let s2 = s1 + p2;
    lemma_joined(s1, p2, x);
    let s3 = s2 + p3;
    lemma_joined(s2, p3, x);
    let s4 = s3 + p4;
    lemma_joined(s3, p4, x);
    let s5 = s4 + p5;
    lemma_joined(s4, p5, x);
    let s6 = s5 + p6;
    lemma_joined(s5, p6, x);
    let s7 = s6 + p7;
    lemma_joined(s6, p7, x);
    let s8 = s7 + p8;
    lemma_joined(s7, p8, x);
    let s9 = s8 + p9;
    lemma_joined(s8, p9, x);
    let s10 = s9 + p10;
    lemma_joined(s9, p10, x);
    let s11 = s10 + p11;
    lemma_joined(s10, p11, x);
    let s12 = s11 + p12;
    lemma_joined(s11, p12, x);
    let s13 = s12 + p13;
    lemma_joined(s12, p13, x);
    let s14 = s13 + p14;
    lemma_joined(s13, p14, x);
    let s15 = s14 + p15;
    lemma_joined(s14, p15, x);
    let s16 = s15 + p16;
    lemma_joined(s15, p16, x);
    assert(evaluated(event, facts) == s16);
}

proof fn lemma_joined(a: Seq<Evidence>, b: Seq<Evidence>, x: Evidence)
    ensures
        (a + b).contains(x) <==> a.contains(x) || b.contains(x),
{
    let ab = a + b;
    if a.contains(x) {
        let i = choose|i: int| 0 <= i < a.len() && a[i] == x;
        assert(ab[i] == x);
    }
    if b.contains(x) {
        let i = choose|i: int| 0 <= i < b.len() && b[i] == x;
        assert(ab[a.len() + i] == x);
    }
    if ab.contains(x) {
        let i = choose|i: int| 0 <= i < ab.len() && ab[i] == x;
        if i < a.len() {
            assert(a[i] == x);
        } else {
            assert(b[i - a.len()] == x);
        }
    }
}

/// The rules, in the order in which they are read.
pub open spec fn rule_names() -> Seq<Seq<char>> {
    seq![
        "encoded_powershell"@,
        "interpreter_from_host_app"@,
        "masquerading_outside_system32"@,
        "lolbin_remote_fetch"@,
        "run_key_persistence"@,
        "high_abuse_tld"@,
        "novel_binary_in_writable_location"@,
        "process_fanout_burst"@,
        "script_block_encoded_command"@,
        "script_block_obfuscated"@,
        "script_block_remote_fetch"@,
        "script_block_defence_evasion"@,
        "wmi_process_creation"@,
        "wmi_permanent_subscription"@,
        "scheduled_task_registered"@,
        "unsigned_image_from_writable_location"@,
        "executable_dropped_in_writable_location"@,
    ]
}

/// No two rules go by one name.
pub proof fn rules_have_their_own_names()
    ensures
        forall|i: int, j: int|
            0 <= i < j < rule_names().len() ==> #[trigger] rule_names()[i]
                != #[trigger] rule_names()[j],
{
    let all = rule_names();
    reveal_strlit("encoded_powershell");
    reveal_strlit("interpreter_from_host_app");
    reveal_strlit("masquerading_outside_system32");
    reveal_strlit("lolbin_remote_fetch");
    reveal_strlit("run_key_persistence");
    reveal_strlit("high_abuse_tld");
    reveal_strlit("novel_binary_in_writable_location");
    reveal_strlit("process_fanout_burst");
    reveal_strlit("script_block_encoded_command");
    reveal_strlit("script_block_obfuscated");
    reveal_strlit("script_block_remote_fetch");
    reveal_strlit("script_block_defence_evasion");
    reveal_strlit("wmi_process_creation");
    reveal_strlit("wmi_permanent_subscription");
    reveal_strlit("scheduled_task_registered");
    reveal_strlit("unsigned_image_from_writable_location");
    reveal_strlit("executable_dropped_in_writable_location");
    assert(all[0].len() == 18);
    assert(all[1].len() == 25);
    assert(all[2].len() == 29);
    assert(all[3].len() == 19);
    assert(all[4].len() == 19);
    assert(all[5].len() == 14);
    assert(all[6].len() == 33);
    assert(all[7].len() == 20);
    assert(all[8].len() == 28);
    assert(all[9].len() == 23);
    assert(all[10].len() == 25);
    assert(all[11].len() == 28);
    assert(all[12].len() == 20);
    assert(all[13].len() == 26);
    assert(all[14].len() == 25);
    assert(all[15].len() == 37);
    assert(all[16].len() == 39);
    assert(all[1][0] != all[10][0]);
    assert(all[1][0] != all[14][0]);
    assert(all[3][0] != all[4][0]);
    assert(all[7][0] != all[12][0]);
    assert(all[8][13] != all[11][13]);
    assert(all[10][2] != all[14][2]);
}

/// What a rule says, in full.
pub open spec fn saying(
    rule: Seq<char>,
    technique: Seq<char>,
    hit: u32,
    miss: u32,
    detail: Seq<char>,
) -> Evidence {
    Evidence { rule, technique, likelihood: Likelihood { hit, miss }, detail }
}

/// The image a start runs: the one that is known, or the one the event names.
pub open spec fn run_image(start: ProcessStart, facts: Known) -> Seq<char> {
    if facts.image is Some {
        facts.image->0
    } else {
        start.executable@
    }
}

/// Whether a start has a command line: one that is known, or one the event names.
pub open spec fn has_command(start: ProcessStart, facts: Known) -> bool {
    facts.command_line is Some || start.command_line is Some
}

/// The command line of a start that has one, folded.
pub open spec fn run_command(start: ProcessStart, facts: Known) -> Seq<char> {
    if facts.command_line is Some {
        folded(facts.command_line->0)
    } else {
        folded(start.command_line->0@)
    }
}

proof fn lemma_other_names(at: int)
    requires
        0 <= at < 17,
    ensures
        at != 0 ==> rule_names()[at] != "encoded_powershell"@,
        at != 1 ==> rule_names()[at] != "interpreter_from_host_app"@,
        at != 2 ==> rule_names()[at] != "masquerading_outside_system32"@,
        at != 3 ==> rule_names()[at] != "lolbin_remote_fetch"@,
        at != 4 ==> rule_names()[at] != "run_key_persistence"@,
        at != 5 ==> rule_names()[at] != "high_abuse_tld"@,
        at != 6 ==> rule_names()[at] != "novel_binary_in_writable_location"@,
        at != 7 ==> rule_names()[at] != "process_fanout_burst"@,
        at != 8 ==> rule_names()[at] != "script_block_encoded_command"@,
        at != 9 ==> rule_names()[at] != "script_block_obfuscated"@,
        at != 10 ==> rule_names()[at] != "script_block_remote_fetch"@,
        at != 11 ==> rule_names()[at] != "script_block_defence_evasion"@,
        at != 12 ==> rule_names()[at] != "wmi_process_creation"@,
        at != 13 ==> rule_names()[at] != "wmi_permanent_subscription"@,
        at != 14 ==> rule_names()[at] != "scheduled_task_registered"@,
        at != 15 ==> rule_names()[at] != "unsigned_image_from_writable_location"@,
        at != 16 ==> rule_names()[at] != "executable_dropped_in_writable_location"@,
{
    rules_have_their_own_names();
    assert(rule_names()[0] == "encoded_powershell"@);
    assert(rule_names()[1] == "interpreter_from_host_app"@);
    assert(rule_names()[2] == "masquerading_outside_system32"@);
    assert(rule_names()[3] == "lolbin_remote_fetch"@);
    assert(rule_names()[4] == "run_key_persistence"@);
    assert(rule_names()[5] == "high_abuse_tld"@);
    assert(rule_names()[6] == "novel_binary_in_writable_location"@);
    assert(rule_names()[7] == "process_fanout_burst"@);
    assert(rule_names()[8] == "script_block_encoded_command"@);
    assert(rule_names()[9] == "script_block_obfuscated"@);
    assert(rule_names()[10] == "script_block_remote_fetch"@);
    assert(rule_names()[11] == "script_block_defence_evasion"@);
    assert(rule_names()[12] == "wmi_process_creation"@);
    assert(rule_names()[13] == "wmi_permanent_subscription"@);
    assert(rule_names()[14] == "scheduled_task_registered"@);
    assert(rule_names()[15] == "unsigned_image_from_writable_location"@);
    assert(rule_names()[16] == "executable_dropped_in_writable_location"@);
}

/// PowerShell started with an encoded command is reported, and more strongly where its
/// window is hidden.
pub proof fn encoded_powershell_is_reported(event: TelemetryEvent, facts: Known, x: Evidence)
    requires
        x.rule == "encoded_powershell"@,
    ensures
        evaluated(event, facts).contains(x) <==> {
            &&& event.kind is ProcessStart
            &&& ({
                let start = event.kind->ProcessStart_0;
                let hidden = stands(hiding_flags(), run_command(start, facts));
                &&& among(powershell_names(), base_name_of(run_image(start, facts)))
                &&& has_command(start, facts)
                &&& stands(encoding_flags(), run_command(start, facts))
                &&& x == if hidden {
                    saying(
                        "encoded_powershell"@,
                        "T1059.001"@,
                        9200,
                        100,
                        "encoded command line, hidden=true"@,
                    )
                } else {
                    saying(
                        "encoded_powershell"@,
                        "T1059.001"@,
                        7200,
                        200,
                        "encoded command line, hidden=false"@,
                    )
                }
            })
        },
{
    lemma_reported(event, facts, x);
    rules_have_their_own_names();
    assert(rule_names()[0] == "encoded_powershell"@);
    lemma_other_names(0);
    if event.kind is ProcessStart {
        let start = event.kind->ProcessStart_0;
        lemma_powershell_names(base_name_of(run_image(start, facts)));
        lemma_encoding_flags(run_command(start, facts));
        lemma_hiding_flags(run_command(start, facts));
    }
}

/// An interpreter that an application without business to do so starts is reported, with
/// both names.
pub proof fn interpreters_from_host_applications_are_reported(
    event: TelemetryEvent,
    facts: Known,
    x: Evidence,
)
    requires
        x.rule == "interpreter_from_host_app"@,
    ensures
        evaluated(event, facts).contains(x) <==> {
            &&& event.kind is ProcessStart
            &&& facts.parent_image is Some
            &&& ({
                let image = base_name_of(run_image(event.kind->ProcessStart_0, facts));
                let parent = base_name_of(facts.parent_image->0);
                &&& among(interpreter_names(), image)
                &&& among(host_application_names(), parent)
                &&& x == saying(
                    "interpreter_from_host_app"@,
                    "T1059"@,
                    5500,
                    400,
                    parent + " spawned "@ + image,
                )
            })
        },
{
    lemma_reported(event, facts, x);
    rules_have_their_own_names();
    assert(rule_names()[1] == "interpreter_from_host_app"@);
    lemma_other_names(1);
    if event.kind is ProcessStart {
        lemma_interpreter_names(base_name_of(run_image(event.kind->ProcessStart_0, facts)));
        if facts.parent_image is Some {
            lemma_host_application_names(base_name_of(facts.parent_image->0));
        }
    }
}

/// A process under a system binary's name in a place any user may write to is reported.
pub proof fn masquerading_is_reported(event: TelemetryEvent, facts: Known, x: Evidence)
    requires
        x.rule == "masquerading_outside_system32"@,
    ensures
        evaluated(event, facts).contains(x) <==> {
            &&& event.kind is ProcessStart
            &&& ({
                let image = run_image(event.kind->ProcessStart_0, facts);
                &&& among(system_binary_names(), stem_of(image))
                &&& stands(writable_places(), folded(image))
                &&& x == saying(
                    "masquerading_outside_system32"@,
                    "T1036.005"@,
                    8800,
                    150,
                    image + " is a system name in a writable location"@,
                )
            })
        },
{
    lemma_reported(event, facts, x);
    rules_have_their_own_names();
    assert(rule_names()[2] == "masquerading_outside_system32"@);
    lemma_other_names(2);
    if event.kind is ProcessStart {
        let image = run_image(event.kind->ProcessStart_0, facts);
        lemma_system_binary_names(stem_of(image));
        lemma_writable_places(folded(image));
    }
}

/// A much abused binary started against something remote is reported.
pub proof fn abused_binaries_that_reach_out_are_reported(
    event: TelemetryEvent,
    facts: Known,
    x: Evidence,
)
    requires
        x.rule == "lolbin_remote_fetch"@,
    ensures
        evaluated(event, facts).contains(x) <==> {
            &&& event.kind is ProcessStart
            &&& ({
                let start = event.kind->ProcessStart_0;
                let image = stem_of(run_image(start, facts));
                &&& among(abused_binary_names(), image)
                &&& has_command(start, facts)
                &&& stands(remote_words(), run_command(start, facts))
                &&& x == saying(
                    "lolbin_remote_fetch"@,
                    "T1218"@,
                    6800,
                    250,
                    image + " used against a remote location"@,
                )
            })
        },
{
    lemma_reported(event, facts, x);
    rules_have_their_own_names();
    assert(rule_names()[3] == "lolbin_remote_fetch"@);
    lemma_other_names(3);
    if event.kind is ProcessStart {
        let start = event.kind->ProcessStart_0;
        lemma_abused_binary_names(stem_of(run_image(start, facts)));
        lemma_remote_words(run_command(start, facts));
    }
}

/// A registry value under a key that survives a logon is reported, whoever writes it.
pub proof fn values_that_survive_a_logon_are_reported(
    event: TelemetryEvent,
    facts: Known,
    x: Evidence,
)
    requires
        x.rule == "run_key_persistence"@,
    ensures
        evaluated(event, facts).contains(x) <==> {
            &&& event.kind is RegistrySet
            &&& ({
                let key = (event.kind->RegistrySet_0).key_path@;
                &&& stands(logon_keys(), folded(key))
                &&& x == saying(
                    "run_key_persistence"@,
                    "T1547.001"@,
                    6200,
                    80,
                    key + " written"@,
                )
            })
        },
{
    lemma_reported(event, facts, x);
    rules_have_their_own_names();
    assert(rule_names()[4] == "run_key_persistence"@);
    lemma_other_names(4);
    if event.kind is RegistrySet {
        lemma_logon_keys(folded((event.kind->RegistrySet_0).key_path@));
    }
}

/// A query for a name that ends in a much abused domain is reported.
pub proof fn queries_in_abused_domains_are_reported(
    event: TelemetryEvent,
    facts: Known,
    x: Evidence,
)
    requires
        x.rule == "high_abuse_tld"@,
    ensures
        evaluated(event, facts).contains(x) <==> {
            &&& event.kind is DnsQuery
            &&& ({
                let name = (event.kind->DnsQuery_0).query_name@;
                &&& closes(abused_domains(), folded(name))
                &&& x == saying(
                    "high_abuse_tld"@,
                    "T1071.004"@,
                    3000,
                    700,
                    name + " in a high-abuse namespace"@,
                )
            })
        },
{
    lemma_reported(event, facts, x);
    rules_have_their_own_names();
    assert(rule_names()[5] == "high_abuse_tld"@);
    lemma_other_names(5);
    if event.kind is DnsQuery {
        lemma_abused_domains(folded((event.kind->DnsQuery_0).query_name@));
    }
}

/// A binary that was never seen before, run from a place any user may write to, is
/// reported.
pub proof fn first_sightings_in_writable_places_are_reported(
    event: TelemetryEvent,
    facts: Known,
    x: Evidence,
)
    requires
        x.rule == "novel_binary_in_writable_location"@,
    ensures
        evaluated(event, facts).contains(x) <==> {
            &&& event.kind is ProcessStart
            &&& facts.image_is_novel
            &&& ({
                let image = run_image(event.kind->ProcessStart_0, facts);
                &&& stands(writable_places(), folded(image))
                &&& x == saying(
                    "novel_binary_in_writable_location"@,
                    "T1036"@,
                    4500,
                    300,
                    "first sighting of "@ + image + " from a writable location"@,
                )
            })
        },
{
    lemma_reported(event, facts, x);
    rules_have_their_own_names();
    assert(rule_names()[6] == "novel_binary_in_writable_location"@);
    lemma_other_names(6);
    if event.kind is ProcessStart {
        lemma_writable_places(folded(run_image(event.kind->ProcessStart_0, facts)));
    }
}

/// A start is reported from the eighth sibling on, and more strongly from the
/// thirty-second.
pub proof fn bursts_of_children_are_reported(event: TelemetryEvent, facts: Known, x: Evidence)
    requires
        x.rule == "process_fanout_burst"@,
    ensures
        evaluated(event, facts).contains(x) <==> {
            &&& event.kind is ProcessStart
            &&& facts.siblings >= 8
            &&& x == ({
                let detail = "parent has produced "@ + decimal_text(facts.siblings) + " children"@;
                if facts.siblings >= 32 {
                    saying("process_fanout_burst"@, "T1055"@, 5000, 200, detail)
                } else {
                    saying("process_fanout_burst"@, "T1055"@, 2500, 600, detail)
                }
            })
        },
{
    lemma_reported(event, facts, x);
    rules_have_their_own_names();
    assert(rule_names()[7] == "process_fanout_burst"@);
    lemma_other_names(7);
}

/// A script that holds a word that hides what it does is reported by the first such
/// word, whatever else the script holds.
pub proof fn scripts_that_hide_are_reported(event: TelemetryEvent, facts: Known, x: Evidence)
    requires
        x.rule == "script_block_obfuscated"@,
    ensures
        evaluated(event, facts).contains(x) <==> {
            &&& event.kind is ScriptBlock
            &&& exists|i: int|
                0 <= i < hiding_words().len() && x == saying(
                    "script_block_obfuscated"@,
                    "T1140"@,
                    5500,
                    300,
                    "script block contains "@ + #[trigger] hiding_words()[i],
                ) && occurs(folded((event.kind->ScriptBlock_0).text@), hiding_words()[i])
                    && forall|j: int|
                    0 <= j < i ==> !occurs(
                        folded((event.kind->ScriptBlock_0).text@),
                        #[trigger] hiding_words()[j],
                    )
        },
{
    lemma_reported(event, facts, x);
    rules_have_their_own_names();
    assert(rule_names()[9] == "script_block_obfuscated"@);
    lemma_other_names(9);
    if event.kind is ScriptBlock {
        let text = folded((event.kind->ScriptBlock_0).text@);
        lemma_hiding_words(text);
        if stands(hiding_words(), text) {
            let k = choose|k: int| 0 <= k < hiding_words().len() && occurs(text, #[trigger] hiding_words()[k]);
            assert(occurs(text, hiding_words()[k]));
        }
    }
}

/// A script that holds a word that fetches something is reported by the first such
/// word, whatever else the script holds.
pub proof fn scripts_that_fetch_are_reported(event: TelemetryEvent, facts: Known, x: Evidence)
    requires
        x.rule == "script_block_remote_fetch"@,
    ensures
        evaluated(event, facts).contains(x) <==> {
            &&& event.kind is ScriptBlock
            &&& exists|i: int|
                0 <= i < fetching_words().len() && x == saying(
                    "script_block_remote_fetch"@,
                    "T1105"@,
                    4500,
                    500,
                    "script block contains "@ + #[trigger] fetching_words()[i],
                ) && occurs(folded((event.kind->ScriptBlock_0).text@), fetching_words()[i])
                    && forall|j: int|
                    0 <= j < i ==> !occurs(
                        folded((event.kind->ScriptBlock_0).text@),
                        #[trigger] fetching_words()[j],
                    )
        },
{
    lemma_reported(event, facts, x);
    rules_have_their_own_names();
    assert(rule_names()[10] == "script_block_remote_fetch"@);
    lemma_other_names(10);
    if event.kind is ScriptBlock {
        let text = folded((event.kind->ScriptBlock_0).text@);
        lemma_fetching_words(text);
        if stands(fetching_words(), text) {
            let k = choose|k: int| 0 <= k < fetching_words().len() && occurs(text, #[trigger] fetching_words()[k]);
            assert(occurs(text, fetching_words()[k]));
        }
    }
}

/// A script that holds a word that disarms the defences is reported by the first such
/// word, whatever else the script holds.
pub proof fn scripts_that_disarm_are_reported(event: TelemetryEvent, facts: Known, x: Evidence)
    requires
        x.rule == "script_block_defence_evasion"@,
    ensures
        evaluated(event, facts).contains(x) <==> {
            &&& event.kind is ScriptBlock
            &&& exists|i: int|
                0 <= i < disarming_words().len() && x == saying(
                    "script_block_defence_evasion"@,
                    "T1562.001"@,
                    6500,
                    50,
                    "script block contains "@ + #[trigger] disarming_words()[i],
                ) && occurs(folded((event.kind->ScriptBlock_0).text@), disarming_words()[i])
                    && forall|j: int|
                    0 <= j < i ==> !occurs(
                        folded((event.kind->ScriptBlock_0).text@),
                        #[trigger] disarming_words()[j],
                    )
        },
{
    lemma_reported(event, facts, x);
    rules_have_their_own_names();
    assert(rule_names()[11] == "script_block_defence_evasion"@);
    lemma_other_names(11);
    if event.kind is ScriptBlock {
        let text = folded((event.kind->ScriptBlock_0).text@);
        lemma_disarming_words(text);
        if stands(disarming_words(), text) {
            let k = choose|k: int| 0 <= k < disarming_words().len() && occurs(text, #[trigger] disarming_words()[k]);
            assert(occurs(text, disarming_words()[k]));
        }
    }
}

/// A process made through WMI is always reported: most strongly an interpreter for a
/// caller elsewhere, then an interpreter, then a caller elsewhere, then the rest.
pub proof fn processes_made_through_wmi_are_reported(
    event: TelemetryEvent,
    facts: Known,
    x: Evidence,
)
    requires
        x.rule == "wmi_process_creation"@,
    ensures
        evaluated(event, facts).contains(x) <==> {
            &&& event.kind is WmiProcess
            &&& ({
                let wmi = event.kind->WmiProcess_0;
                let command = folded(wmi.command_line@);
                let interpreter = stands(interpreter_names(), command) || stands(
                    abused_binary_names(),
                    command,
                );
                let elsewhere = wmi.is_local == Some(false) || wmi.client_machine is Some
                    && wmi.client_machine->0@.len() > 0 && wmi.client_machine->0@ != "."@;
                let image = command_image_of(wmi.command_line@);
                x == if interpreter && elsewhere {
                    saying(
                        "wmi_process_creation"@,
                        "T1047"@,
                        9000,
                        100,
                        "remote WMI call spawning an interpreter: "@ + image,
                    )
                } else if interpreter {
                    saying(
                        "wmi_process_creation"@,
                        "T1047"@,
                        7000,
                        200,
                        "WMI call spawning an interpreter: "@ + image,
                    )
                } else if elsewhere {
                    saying(
                        "wmi_process_creation"@,
                        "T1047"@,
                        5500,
                        150,
                        "remote WMI process creation: "@ + image,
                    )
                } else {
                    saying(
                        "wmi_process_creation"@,
                        "T1047"@,
                        3500,
                        400,
                        "WMI process creation: "@ + image,
                    )
                }
            })
        },
{
    lemma_reported(event, facts, x);
    rules_have_their_own_names();
    assert(rule_names()[12] == "wmi_process_creation"@);
    lemma_other_names(12);
    if event.kind is WmiProcess {
        let command = folded((event.kind->WmiProcess_0).command_line@);
        lemma_interpreter_names(command);
        lemma_abused_binary_names(command);
    }
}

/// A permanent WMI subscription is always reported, and more strongly where its
/// consumer runs what it is given.
pub proof fn permanent_subscriptions_are_reported(event: TelemetryEvent, facts: Known, x: Evidence)
    requires
        x.rule == "wmi_permanent_subscription"@,
    ensures
        evaluated(event, facts).contains(x) <==> {
            &&& event.kind is WmiSubscription
            &&& ({
                let made = event.kind->WmiSubscription_0;
                let consumer = if made.consumer is Some {
                    made.consumer->0@
                } else {
                    ""@
                };
                x == if stands(code_consumers(), folded(consumer)) {
                    saying(
                        "wmi_permanent_subscription"@,
                        "T1546.003"@,
                        8500,
                        80,
                        "permanent WMI subscription with a code-running consumer ("@
                            + command_image_of(consumer) + ")"@,
                    )
                } else {
                    saying(
                        "wmi_permanent_subscription"@,
                        "T1546.003"@,
                        4500,
                        300,
                        "permanent WMI subscription in "@ + made.namespace@,
                    )
                }
            })
        },
{
    lemma_reported(event, facts, x);
    rules_have_their_own_names();
    assert(rule_names()[13] == "wmi_permanent_subscription"@);
    lemma_other_names(13);
    if event.kind is WmiSubscription {
        let made = event.kind->WmiSubscription_0;
        lemma_code_consumers(
            folded(
                if made.consumer is Some {
                    made.consumer->0@
                } else {
                    ""@
                },
            ),
        );
    }
}

/// A task registered outside the folder of Windows' own is reported, and more strongly
/// where its name sounds like Windows; one inside that folder is not.
pub proof fn tasks_outside_the_windows_folder_are_reported(
    event: TelemetryEvent,
    facts: Known,
    x: Evidence,
)
    requires
        x.rule == "scheduled_task_registered"@,
    ensures
        evaluated(event, facts).contains(x) <==> {
            &&& event.kind is TaskRegistered
            &&& ({
                let name = (event.kind->TaskRegistered_0).task_name@;
                &&& !occurs_at(folded(name), "\\microsoft\\"@, 0)
                &&& x == if stands(windows_words(), folded(name)) {
                    saying(
                        "scheduled_task_registered"@,
                        "T1053.005"@,
                        6000,
                        200,
                        "task "@ + name + " uses a Windows-sounding name outside \\Microsoft\\"@,
                    )
                } else {
                    saying(
                        "scheduled_task_registered"@,
                        "T1053.005"@,
                        4000,
                        350,
                        "task registered: "@ + name,
                    )
                }
            })
        },
{
    lemma_reported(event, facts, x);
    rules_have_their_own_names();
    assert(rule_names()[14] == "scheduled_task_registered"@);
    lemma_other_names(14);
    if event.kind is TaskRegistered {
        lemma_windows_words(folded((event.kind->TaskRegistered_0).task_name@));
    }
}

/// An image known to have no valid signature, loaded from a place any user may write
/// to, is reported; one of which that is not known is not.
pub proof fn unsigned_images_from_writable_places_are_reported(
    event: TelemetryEvent,
    facts: Known,
    x: Evidence,
)
    requires
        x.rule == "unsigned_image_from_writable_location"@,
    ensures
        evaluated(event, facts).contains(x) <==> {
            &&& event.kind is ImageLoad
            &&& ({
                let image = event.kind->ImageLoad_0;
                &&& image.signed == Some(false)
                &&& stands(writable_places(), folded(image.image_path@))
                &&& x == saying(
                    "unsigned_image_from_writable_location"@,
                    "T1574.002"@,
                    4200,
                    300,
                    "unsigned image loaded from "@ + image.image_path@,
                )
            })
        },
{
    lemma_reported(event, facts, x);
    rules_have_their_own_names();
    assert(rule_names()[15] == "unsigned_image_from_writable_location"@);
    lemma_other_names(15);
    if event.kind is ImageLoad {
        lemma_writable_places(folded((event.kind->ImageLoad_0).image_path@));
    }
}

/// A file that something will run, written to a place any user may write to, is
/// reported.
pub proof fn runnable_files_in_writable_places_are_reported(
    event: TelemetryEvent,
    facts: Known,
    x: Evidence,
)
    requires
        x.rule == "executable_dropped_in_writable_location"@,
    ensures
        evaluated(event, facts).contains(x) <==> {
            &&& event.kind is FileCreate
            &&& ({
                let path = (event.kind->FileCreate_0).path@;
                &&& closes(runnable_endings(), folded(path))
                &&& stands(writable_places(), folded(path))
                &&& x == saying(
                    "executable_dropped_in_writable_location"@,
                    "T1105"@,
                    3500,
                    400,
                    "executable written to "@ + path,
                )
            })
        },
{
    lemma_reported(event, facts, x);
    rules_have_their_own_names();
    assert(rule_names()[16] == "executable_dropped_in_writable_location"@);
    lemma_other_names(16);
    if event.kind is FileCreate {
        let path = (event.kind->FileCreate_0).path@;
        lemma_writable_places(folded(path));
        lemma_runnable_endings(folded(path));
    }
}

/// Whether a text holds, behind one of the markers and any white space, a run of at
/// least twenty characters of base64 that ends with the text, at white space or at a
/// quote.
pub open spec fn holds_encoded_run(text: Seq<char>) -> bool {
    exists|before: Seq<char>, m: int, gap: Seq<char>, run: Seq<char>, after: Seq<char>|
        #![trigger before + encoding_markers()[m] + gap + run + after]
        {
            &&& 0 <= m < encoding_markers().len()
            &&& text == before + encoding_markers()[m] + gap + run + after
            &&& forall|i: int| 0 <= i < gap.len() ==> white(#[trigger] gap[i])
            &&& run.len() >= 20
            &&& forall|i: int|
                0 <= i < run.len() ==> {
                    let c = #[trigger] run[i];
                    'a' <= c <= 'z' || 'A' <= c <= 'Z' || '0' <= c <= '9' || c == '+' || c == '/'
                        || c == '='
                }
            &&& after.len() == 0 || white(after[0]) || after[0] == '\'' || after[0] == '"'
        }
}

proof fn lemma_skip_white(s: Seq<char>, from: int)
    requires
        0 <= from <= s.len(),
    ensures
        from <= skip_white(s, from) <= s.len(),
        forall|i: int| from <= i < skip_white(s, from) ==> white(#[trigger] s[i]),
        skip_white(s, from) < s.len() ==> !white(s[skip_white(s, from)]),
    decreases s.len() - from,
{
    if from < s.len() && white(s[from]) {
        lemma_skip_white(s, from + 1);
    }
}

proof fn lemma_blob_to(s: Seq<char>, from: int)
    requires
        0 <= from <= s.len(),
    ensures
        from <= blob_to(s, from) <= s.len(),
        forall|i: int| from <= i < blob_to(s, from) ==> !blob_end(#[trigger] s[i]),
        blob_to(s, from) < s.len() ==> blob_end(s[blob_to(s, from)]),
    decreases s.len() - from,
{
    if from < s.len() && !blob_end(s[from]) {
        lemma_blob_to(s, from + 1);
    }
}

proof fn lemma_base64_is_no_end(c: char)
    ensures
        base64_char(c) ==> !blob_end(c),
{
}

proof fn lemma_encoded_run(s: Seq<char>)
    ensures
        (exists|m: int| 0 <= m < 4 && marked_blob(s, #[trigger] encoding_markers()[m]))
            == holds_encoded_run(s),
{
    if exists|m: int| 0 <= m < 4 && marked_blob(s, #[trigger] encoding_markers()[m]) {
        lemma_marked_run(s);
    }
    if holds_encoded_run(s) {
        lemma_run_marked(s);
    }
}

#[verifier::rlimit(40)]
proof fn lemma_marked_run(s: Seq<char>)
    requires
        exists|m: int| 0 <= m < 4 && marked_blob(s, #[trigger] encoding_markers()[m]),
    ensures
        holds_encoded_run(s),
{
    let markers = encoding_markers();
    let m = choose|m: int| 0 <= m < 4 && marked_blob(s, #[trigger] markers[m]);
    let i = choose|i: int| #[trigger]
        occurs_at(s, markers[m], i) && blob_at(s, i + markers[m].len());
    let from = i + markers[m].len();
    lemma_skip_white(s, from);
    let start = skip_white(s, from);
    lemma_blob_to(s, start);
    let end = blob_to(s, start);
    let before = s.take(i);
    let gap = s.subrange(from, start);
    let run = s.subrange(start, end);
    let after = s.skip(end);
    assert(s == before + markers[m] + gap + run + after) by {
        assert(s.subrange(i, from) == markers[m]);
        let joined = before + markers[m] + gap + run + after;
        assert forall|k: int| 0 <= k < s.len() implies s[k] == joined[k] by {
            if i <= k < from {
                assert(s.subrange(i, from)[k - i] == s[k]);
            }
        }
        assert(joined.len() == s.len());
    }
    assert forall|k: int| 0 <= k < run.len() implies base64_char(#[trigger] run[k]) by {
        assert(base64_char(s[start + k]));
    }
    assert forall|k: int| 0 <= k < gap.len() implies white(#[trigger] gap[k]) by {
        assert(white(s[from + k]));
    }
}

#[verifier::rlimit(40)]
proof fn lemma_run_marked(s: Seq<char>)
    requires
        holds_encoded_run(s),
    ensures
        exists|m: int| 0 <= m < 4 && marked_blob(s, #[trigger] encoding_markers()[m]),
{
    let markers = encoding_markers();
    let (before, m, gap, run, after) = choose|
        before: Seq<char>,
        m: int,
        gap: Seq<char>,
        run: Seq<char>,
        after: Seq<char>,
    |
        #![trigger before + encoding_markers()[m] + gap + run + after]
        {
            &&& 0 <= m < encoding_markers().len()
            &&& s == before + encoding_markers()[m] + gap + run + after
            &&& forall|i: int| 0 <= i < gap.len() ==> white(#[trigger] gap[i])
            &&& run.len() >= 20
            &&& forall|i: int|
                0 <= i < run.len() ==> {
                    let c = #[trigger] run[i];
                    'a' <= c <= 'z' || 'A' <= c <= 'Z' || '0' <= c <= '9' || c == '+' || c
                        == '/' || c == '='
                }
            &&& after.len() == 0 || white(after[0]) || after[0] == '\'' || after[0] == '"'
        };
    let marker = markers[m];
    let i = before.len() as int;
    let from = i + marker.len();
    assert(s.subrange(i, from) == marker);
    assert(occurs_at(s, marker, i));
    let start = from + gap.len();
    let end = start + run.len();
    assert forall|k: int| from <= k < start implies white(#[trigger] s[k]) by {
        assert(s[k] == gap[k - from]);
    }
    assert forall|k: int| start <= k < end implies base64_char(#[trigger] s[k]) by {
        assert(s[k] == run[k - start]);
        assert(base64_char(run[k - start]));
    }
    lemma_skip_white(s, from);
    lemma_base64_is_no_end(s[start]);
    assert(base64_char(s[start]));
    assert(skip_white(s, from) == start) by {
        if skip_white(s, from) < start {
            assert(white(s[skip_white(s, from)]));
        }
        if skip_white(s, from) > start {
            assert(white(s[start]));
        }
    }
    lemma_blob_to(s, start);
    assert(blob_to(s, start) == end) by {
        if blob_to(s, start) < end {
            lemma_base64_is_no_end(s[blob_to(s, start)]);
            assert(base64_char(s[blob_to(s, start)]));
        }
        if blob_to(s, start) > end {
            assert(s[end] == after[0]);
            assert(!blob_end(s[end]));
        }
    }
    assert(marked_blob(s, marker));
}

/// A script that hands over an encoded command is reported: one that names the
/// argument in full, or a shorter one with a run of base64 behind it.
pub proof fn scripts_with_encoded_commands_are_reported(
    event: TelemetryEvent,
    facts: Known,
    x: Evidence,
)
    requires
        x.rule == "script_block_encoded_command"@,
    ensures
        evaluated(event, facts).contains(x) <==> {
            &&& event.kind is ScriptBlock
            &&& ({
                let text = folded((event.kind->ScriptBlock_0).text@);
                stands(encoding_arguments(), text) || holds_encoded_run(text)
            })
            &&& x == saying(
                "script_block_encoded_command"@,
                "T1059.001"@,
                8000,
                150,
                "script block passes an encoded command"@,
            )
        },
{
    lemma_reported(event, facts, x);
    rules_have_their_own_names();
    assert(rule_names()[8] == "script_block_encoded_command"@);
    lemma_other_names(8);
    if event.kind is ScriptBlock {
        encoded_commands_are_recognised((event.kind->ScriptBlock_0).text@);
    }
}

/// A text hands over an encoded command where it names the argument in full, or a
/// shorter one with a run of base64 behind it.
pub proof fn encoded_commands_are_recognised(text: Seq<char>)
    ensures
        encoded_command(folded(text)) <==> stands(encoding_arguments(), folded(text))
            || holds_encoded_run(folded(text)),
{
    let s = folded(text);
    lemma_encoding_arguments(s);
    lemma_encoded_run(s);
    let markers = encoding_markers();
    assert(ENCODED_MARKERS@[0]@ == markers[0]);
    assert(ENCODED_MARKERS@[1]@ == markers[1]);
    assert(ENCODED_MARKERS@[2]@ == markers[2]);
    assert(ENCODED_MARKERS@[3]@ == markers[3]);
    if exists|m: int| 0 <= m < 4 && marked_blob(s, #[trigger] markers[m]) {
        let m = choose|m: int| 0 <= m < 4 && marked_blob(s, #[trigger] markers[m]);
        assert(marked_blob(s, ENCODED_MARKERS@[m]@));
    }
    if exists|m: int| 0 <= m < 4 && marked_blob(s, (#[trigger] ENCODED_MARKERS@[m])@) {
        let m = choose|m: int| 0 <= m < 4 && marked_blob(s, (#[trigger] ENCODED_MARKERS@[m])@);
        assert(marked_blob(s, markers[m]));
    }
}

/// Whether findings name rules before the given place, in their order.
spec fn in_order(said: Seq<Evidence>, before: int) -> bool {
    &&& forall|i: int|
        0 <= i < said.len() ==> rule_names().contains((#[trigger] said[i]).rule)
            && rule_names().index_of(said[i].rule) < before
    &&& forall|i: int, j: int|
        0 <= i < j < said.len() ==> rule_names().index_of((#[trigger] said[i]).rule)
            < rule_names().index_of((#[trigger] said[j]).rule)
}

proof fn lemma_next(said: Seq<Evidence>, found: Option<Evidence>, place: int)
    requires
        0 <= place < 17,
        in_order(said, place),
        found is Some ==> (found->0).rule == rule_names()[place],
    ensures
        in_order(said + listed(found), place + 1),
{
    rules_have_their_own_names();
    let all = said + listed(found);
    let names = rule_names();
    assert(names.index_of(names[place]) == place) by {
        assert(names.contains(names[place]));
        let k = names.index_of(names[place]);
        assert(0 <= k < names.len() && names[k] == names[place]);
    }
    assert forall|i: int| 0 <= i < all.len() implies rule_names().contains(
        (#[trigger] all[i]).rule,
    ) && rule_names().index_of(all[i].rule) < place + 1 by {
        if i < said.len() {
            assert(all[i] == said[i]);
        } else {
            assert(all[i] == found->0);
            assert(names.contains(names[place]));
        }
    }
    assert forall|i: int, j: int| 0 <= i < j < all.len() implies rule_names().index_of(
        (#[trigger] all[i]).rule,
    ) < rule_names().index_of((#[trigger] all[j]).rule) by {
        assert(all[i] == said[i]);
        if j < said.len() {
            assert(all[j] == said[j]);
        } else {
            assert(all[j] == found->0);
        }
    }
}

/// Findings come in the order of the rules, and each rule finds at most one thing
/// in an event.
pub proof fn findings_come_in_the_order_of_the_rules(event: TelemetryEvent, facts: Known)
    ensures
        forall|i: int, j: int|
            0 <= i < j < evaluated(event, facts).len() ==> rule_names().index_of(
                (#[trigger] evaluated(event, facts)[i]).rule,
            ) < rule_names().index_of((#[trigger] evaluated(event, facts)[j]).rule),
        forall|i: int|
            0 <= i < evaluated(event, facts).len() ==> rule_names().contains(
                (#[trigger] evaluated(event, facts)[i]).rule,
            ),
{
    let n0 = Seq::<Evidence>::empty();
    assert(in_order(n0, 0));
    assert(rule_names()[0] == "encoded_powershell"@);
    let n1 = n0 + listed(encoded_interpreter_says(event, facts));
    lemma_next(n0, encoded_interpreter_says(event, facts), 0);
    assert(rule_names()[1] == "interpreter_from_host_app"@);
    let n2 = n1 + listed(interpreter_from_host_app_says(event, facts));
    lemma_next(n1, interpreter_from_host_app_says(event, facts), 1);
    assert(rule_names()[2] == "masquerading_outside_system32"@);
    let n3 = n2 + listed(masquerading_outside_system32_says(event, facts));
    lemma_next(n2, masquerading_outside_system32_says(event, facts), 2);
    assert(rule_names()[3] == "lolbin_remote_fetch"@);
    let n4 = n3 + listed(lolbin_network_use_says(event, facts));
    lemma_next(n3, lolbin_network_use_says(event, facts), 3);
    assert(rule_names()[4] == "run_key_persistence"@);
    let n5 = n4 + listed(run_key_persistence_says(event, facts));
    lemma_next(n4, run_key_persistence_says(event, facts), 4);
    assert(rule_names()[5] == "high_abuse_tld"@);
    let n6 = n5 + listed(high_abuse_tld_says(event, facts));
    lemma_next(n5, high_abuse_tld_says(event, facts), 5);
    assert(rule_names()[6] == "novel_binary_in_writable_location"@);
    let n7 = n6 + listed(novel_binary_in_writable_location_says(event, facts));
    lemma_next(n6, novel_binary_in_writable_location_says(event, facts), 6);
    assert(rule_names()[7] == "process_fanout_burst"@);
    let n8 = n7 + listed(process_fanout_burst_says(event, facts));
    lemma_next(n7, process_fanout_burst_says(event, facts), 7);
    assert(rule_names()[8] == "script_block_encoded_command"@);
    let n9 = n8 + listed(script_block_encoded_command_says(event, facts));
    lemma_next(n8, script_block_encoded_command_says(event, facts), 8);
    assert(rule_names()[9] == "script_block_obfuscated"@);
    let n10 = n9 + listed(script_block_obfuscated_says(event, facts));
    lemma_next(n9, script_block_obfuscated_says(event, facts), 9);
    assert(rule_names()[10] == "script_block_remote_fetch"@);
    let n11 = n10 + listed(script_block_remote_fetch_says(event, facts));
    lemma_next(n10, script_block_remote_fetch_says(event, facts), 10);
    assert(rule_names()[11] == "script_block_defence_evasion"@);
    let n12 = n11 + listed(script_block_defence_evasion_says(event, facts));
    lemma_next(n11, script_block_defence_evasion_says(event, facts), 11);
    assert(rule_names()[12] == "wmi_process_creation"@);
    let n13 = n12 + listed(wmi_process_creation_says(event, facts));
    lemma_next(n12, wmi_process_creation_says(event, facts), 12);
    assert(rule_names()[13] == "wmi_permanent_subscription"@);
    let n14 = n13 + listed(wmi_permanent_subscription_says(event, facts));
    lemma_next(n13, wmi_permanent_subscription_says(event, facts), 13);
    assert(rule_names()[14] == "scheduled_task_registered"@);
    let n15 = n14 + listed(scheduled_task_registered_says(event, facts));
    lemma_next(n14, scheduled_task_registered_says(event, facts), 14);
    assert(rule_names()[15] == "unsigned_image_from_writable_location"@);
    let n16 = n15 + listed(unsigned_image_from_writable_location_says(event, facts));
    lemma_next(n15, unsigned_image_from_writable_location_says(event, facts), 15);
    assert(rule_names()[16] == "executable_dropped_in_writable_location"@);
    let n17 = n16 + listed(executable_dropped_in_writable_location_says(event, facts));
    lemma_next(n16, executable_dropped_in_writable_location_says(event, facts), 16);
    assert(evaluated(event, facts) == n17);
}

/// Rules read only the shapes they are written for: of any other shape of event
/// nothing is found.
pub proof fn other_events_are_silent(event: TelemetryEvent, facts: Known)
    requires
        event.kind is ProcessExit || event.kind is NetworkConnect || event.kind
            is NetworkDisconnect || event.kind is FileWrite || event.kind is FileDelete
            || event.kind is FileRename || event.kind is RegistryDelete || event.kind
            is Unclassified,
    ensures
        evaluated(event, facts).len() == 0,
{
}

/// The name of a file is what stands behind the last separator of its path, folded;
/// its stem is the name up to the last dot, or all of it where there is none.
pub proof fn names_are_final_components(path: Seq<char>)
    ensures
        exists|folder: Seq<char>|
            folded(path) == #[trigger] (folder + base_name_of(path)) && (folder.len() == 0
                || folder.last() == '\\' || folder.last() == '/'),
        !base_name_of(path).contains('\\') && !base_name_of(path).contains('/'),
        exists|extension: Seq<char>|
            base_name_of(path) == #[trigger] (stem_of(path) + extension) && (extension.len() == 0
                && !stem_of(path).contains('.') || extension.len() > 0 && extension[0] == '.'
                && !extension.skip(1).contains('.')),
{
    let s = folded(path);
    lemma_last_of(s, '\\', '/');
    let at = last_of(s, '\\', '/');
    let name = base_name_of(path);
    let folder = s.take(at + 1);
    assert(s == folder + name);
    if folder.len() > 0 {
        assert(folder.last() == s[at]);
    }
    assert forall|i: int| 0 <= i < name.len() implies name[i] != '\\' && name[i] != '/' by {
        assert(name[i] == s[at + 1 + i]);
    }
    lemma_last_of(name, '.', '.');
    let dot = last_of(name, '.', '.');
    if dot < 0 {
        assert(name == stem_of(path) + Seq::<char>::empty());
        assert(!stem_of(path).contains('.'));
    } else {
        let extension = name.skip(dot);
        assert(name == stem_of(path) + extension);
        let rest = extension.skip(1);
        assert forall|i: int| 0 <= i < rest.len() implies rest[i] != '.' by {
            assert(rest[i] == name[dot + 1 + i]);
        }
    }
}

/// A text up to the most an alert quotes.
pub open spec fn quoted_part(text: Seq<char>) -> Seq<char> {
    if text.len() <= 80 {
        text
    } else {
        text.take(80)
    }
}

proof fn lemma_token_to(s: Seq<char>, from: int, to: int)
    requires
        0 <= from <= to <= s.len(),
        forall|i: int| from <= i < to ==> !white(#[trigger] s[i]),
        to == s.len() || white(s[to]),
    ensures
        token_to(s, from) == to,
    decreases to - from,
{
    if from < to {
        lemma_token_to(s, from + 1, to);
    }
}

proof fn lemma_unquoted(s: Seq<char>)
    requires
        !s.contains('"'),
    ensures
        unquoted_start(s) == s,
        unquoted_end(s) == s,
        unquoted_end(unquoted_start(seq!['"'] + s + seq!['"'])) == s,
{
    if s.len() > 0 {
        assert(s.contains(s[0]));
        assert(s.contains(s.last()));
    }
    let both = seq!['"'] + s + seq!['"'];
    let back = s + seq!['"'];
    assert(both.drop_first() == back);
    assert(back.drop_last() == s);
    if s.len() == 0 {
        assert(back[0] == '"');
        assert(back.drop_first() == s);
        assert(unquoted_start(s) == s);
        assert(unquoted_start(back) == s);
    } else {
        assert(back[0] == s[0]);
        assert(unquoted_start(back) == back);
    }
}

/// A command line names its image first: the first word, or what stands between the
/// quotes that it begins with, whatever white space is in front and whatever
/// arguments are behind, and no more of it than an alert quotes.
pub proof fn command_lines_name_their_image_first(
    lead: Seq<char>,
    image: Seq<char>,
    rest: Seq<char>,
)
    requires
        forall|i: int| 0 <= i < lead.len() ==> white(#[trigger] lead[i]),
        image.len() > 0,
        !image.contains('"'),
        rest.len() == 0 || white(rest[0]),
    ensures
        command_image_of(lead + (seq!['"'] + image + seq!['"']) + rest) == quoted_part(image),
        (forall|i: int| 0 <= i < image.len() ==> !white(#[trigger] image[i])) ==> command_image_of(
            lead + image + rest,
        ) == quoted_part(image),
        command_image_of(lead) == Seq::<char>::empty(),
{
    let quoted = seq!['"'] + image + seq!['"'];
    let s = lead + quoted + rest;
    let n = lead.len() as int;
    assert(s[n] == '"');
    lemma_skip_white(s, 0);
    assert forall|i: int| 0 <= i < n implies white(#[trigger] s[i]) by {
        assert(s[i] == lead[i]);
    }
    assert(skip_white(s, 0) == n) by {
        if skip_white(s, 0) < n {
            assert(white(s[skip_white(s, 0)]));
        }
        if skip_white(s, 0) > n {
            assert(white(s[n]));
        }
    }
    let q = n + 1 + image.len();
    lemma_index_from(s, '"', n + 1);
    assert(s[q] == '"');
    assert forall|i: int| n + 1 <= i < q implies s[i] != '"' by {
        assert(s[i] == image[i - n - 1]);
        assert(image.contains(image[i - n - 1]));
    }
    assert(index_from(s, '"', n + 1) == q) by {
        let at = index_from(s, '"', n + 1);
        if at > q {
            assert(s[q] != '"');
        }
    }
    if rest.len() > 0 {
        assert(s[q + 1] == rest[0]);
    }
    lemma_token_to(s, q, q + 1);
    assert(s.subrange(n, q + 1) == quoted);
    lemma_unquoted(image);
    assert(first_token(s) == image);
    if forall|i: int| 0 <= i < image.len() ==> !white(#[trigger] image[i]) {
        let w = lead + image + rest;
        let m = n + image.len();
        lemma_skip_white(w, 0);
        assert forall|i: int| 0 <= i < n implies white(#[trigger] w[i]) by {
            assert(w[i] == lead[i]);
        }
        assert(w[n] == image[0]);
        assert(image.contains(image[0]));
        assert(skip_white(w, 0) == n) by {
            if skip_white(w, 0) < n {
                assert(white(w[skip_white(w, 0)]));
            }
            if skip_white(w, 0) > n {
                assert(white(w[n]));
            }
        }
        assert forall|i: int| n <= i < m implies !white(#[trigger] w[i]) by {
            assert(w[i] == image[i - n]);
        }
        if rest.len() > 0 {
            assert(w[m] == rest[0]);
        }
        lemma_token_to(w, n, m);
        assert(w.subrange(n, m) == image);
        assert(first_token(w) == image);
    }
    lemma_skip_white(lead, 0);
    assert(skip_white(lead, 0) == n) by {
        if skip_white(lead, 0) < n {
            assert(white(lead[skip_white(lead, 0)]));
        }
    }
    assert(token_to(lead, n) == n);
    assert(lead.subrange(n, n) == Seq::<char>::empty());
    assert(first_token(lead) == Seq::<char>::empty());
}

/// A finding says what it holds, and facts are known as they were gathered.
pub proof fn findings_and_facts_are_taken_at_their_word<'a>(finding: Finding, facts: Facts<'a>)
    ensures
        finding.says().rule == finding.rule@,
        finding.says().technique == finding.technique@,
        finding.says().likelihood == finding.likelihood,
        finding.says().detail == finding.detail@,
        facts.known().image is Some <==> facts.image is Some,
        facts.image is Some ==> facts.known().image == Some((facts.image->0)@),
        facts.known().command_line is Some <==> facts.command_line is Some,
        facts.command_line is Some ==> facts.known().command_line == Some(
            (facts.command_line->0)@,
        ),
        facts.known().parent_image is Some <==> facts.parent_image is Some,
        facts.parent_image is Some ==> facts.known().parent_image == Some(
            (facts.parent_image->0)@,
        ),
        facts.known().image_is_novel == facts.image_is_novel,
        facts.known().siblings == facts.siblings,
{
}

/// The place of the first word a text holds.
proof fn lemma_first_word(words: Seq<Seq<char>>, text: Seq<char>, k: int) -> (first: int)
    requires
        0 <= k < words.len(),
        occurs(text, words[k]),
    ensures
        0 <= first <= k,
        occurs(text, words[first]),
        forall|j: int| 0 <= j < first ==> !occurs(text, #[trigger] words[j]),
    decreases k,
{
    if exists|j: int| 0 <= j < k && occurs(text, #[trigger] words[j]) {
        let j = choose|j: int| 0 <= j < k && occurs(text, #[trigger] words[j]);
        lemma_first_word(words, text, j)
    } else {
        k
    }
}

/// A fetch is reported exactly where an event is a script block whose text holds,
/// in any case of its letters, a word that fetches something.
pub proof fn fetches_are_reported_exactly_where_there_are_any(event: TelemetryEvent, facts: Known)
    ensures
        (exists|i: int|
            0 <= i < evaluated(event, facts).len() && (#[trigger] evaluated(event, facts)[i]).rule
                == "script_block_remote_fetch"@) <==> {
            &&& event.kind is ScriptBlock
            &&& exists|k: int|
                0 <= k < fetching_words().len() && occurs(
                    folded((event.kind->ScriptBlock_0).text@),
                    #[trigger] fetching_words()[k],
                )
        },
{
    let said = evaluated(event, facts);
    if exists|i: int| 0 <= i < said.len() && (#[trigger] said[i]).rule
        == "script_block_remote_fetch"@ {
        let i = choose|i: int|
            0 <= i < said.len() && (#[trigger] said[i]).rule == "script_block_remote_fetch"@;
        assert(said.contains(said[i]));
        scripts_that_fetch_are_reported(event, facts, said[i]);
    }
    if event.kind is ScriptBlock {
        let text = folded((event.kind->ScriptBlock_0).text@);
        if exists|k: int|
            0 <= k < fetching_words().len() && occurs(text, #[trigger] fetching_words()[k]) {
            let k = choose|k: int|
                0 <= k < fetching_words().len() && occurs(text, #[trigger] fetching_words()[k]);
            let first = lemma_first_word(fetching_words(), text, k);
            let x = saying(
                "script_block_remote_fetch"@,
                "T1105"@,
                4500,
                500,
                "script block contains "@ + fetching_words()[first],
            );
            scripts_that_fetch_are_reported(event, facts, x);
            assert(said.contains(x));
        }
    }
}

/// What each rule is called in an alert, in the order of the rules.
pub open spec fn rule_titles() -> Seq<Seq<char>> {
    seq![
        "Encoded PowerShell command"@,
        "Interpreter spawned by a host application"@,
        "System binary name outside a system directory"@,
        "Signed binary used against a remote location"@,
        "Persistence via a Run key"@,
        "Resolution in a high-abuse namespace"@,
        "First sighting of a binary in a writable location"@,
        "Unusual process fan-out"@,
        "PowerShell script with an encoded command"@,
        "PowerShell script that decodes itself"@,
        "PowerShell script fetching from the network"@,
        "PowerShell script touching the defences"@,
        "Process created through WMI"@,
        "Permanent WMI event subscription"@,
        "Scheduled task registered outside the Windows namespace"@,
        "Unsigned image loaded from a writable location"@,
        "Executable written to a writable location"@,
    ]
}

/// Each rule has its own title, and what is no rule is called suspicious.
#[verifier::rlimit(40)]
pub proof fn rules_have_their_titles(i: int, other: Seq<char>)
    requires
        0 <= i < 17,
    ensures
        title_of(rule_names()[i]) == rule_titles()[i],
        !rule_names().contains(other) ==> title_of(other) == "Suspicious activity"@,
{
    rules_have_their_own_names();
    let all = rule_names();
    assert(all[0] == "encoded_powershell"@ && all[1] == "interpreter_from_host_app"@);
    assert(all[2] == "masquerading_outside_system32"@ && all[3] == "lolbin_remote_fetch"@);
    assert(all[4] == "run_key_persistence"@ && all[5] == "high_abuse_tld"@);
    assert(all[6] == "novel_binary_in_writable_location"@ && all[7] == "process_fanout_burst"@);
    assert(all[8] == "script_block_encoded_command"@ && all[9] == "script_block_obfuscated"@);
    assert(all[10] == "script_block_remote_fetch"@ && all[11] == "script_block_defence_evasion"@);
    assert(all[12] == "wmi_process_creation"@ && all[13] == "wmi_permanent_subscription"@);
    assert(all[14] == "scheduled_task_registered"@);
    assert(all[15] == "unsigned_image_from_writable_location"@);
    assert(all[16] == "executable_dropped_in_writable_location"@);
}

} // verus!
