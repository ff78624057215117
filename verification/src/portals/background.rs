//! The Background portal: asking whether an application may keep running,
//! autostart entries, and the running applications' states.
use crate::desktop::DesktopApp;
use crate::idset::IdSet;
use crate::fspath::{join_path, path_join};
use crate::picker::PickerReply;
use crate::text::{
    chars_of, concat, find_from, has_prefix, push_str, replace_all, replace_from, replace_str, starts_with, str_eq,
    trim, trim_str,
};
use vstd::prelude::*;

verus! {

/// The user forbade running in the background.
pub const FORBID: u32 = 0;

/// The user allowed running in the background.
pub const ALLOW: u32 = 1;

/// The user allowed it this once.
pub const ALLOW_ONCE: u32 = 2;

// ---------------------------------------------------------------------------
// Shell quoting and autostart entries
// ---------------------------------------------------------------------------
pub open spec fn is_ascii_alnum(c: char) -> bool {
    ('a' <= c && c <= 'z') || ('A' <= c && c <= 'Z') || ('0' <= c && c <= '9')
}

/// Characters a shell word may hold unquoted.
pub open spec fn shell_safe(c: char) -> bool {
    is_ascii_alnum(c) || c == '-' || c == '_' || c == '.' || c == '/' || c == '~'
}

/// A shell word for `s`: as it is when every character is safe, else in
/// single quotes with each `'` written `'\''`.
pub open spec fn shell_quote_spec(s: Seq<char>) -> Seq<char> {
    if forall|i: int| 0 <= i < s.len() ==> shell_safe(#[trigger] s[i]) {
        s
    } else {
        seq!['\''] + replace_all(s, seq!['\''], "'\\''"@) + seq!['\'']
    }
}

fn is_ascii_alnum_exec(c: char) -> (out: bool)
    ensures
        out == is_ascii_alnum(c),
{
    ('a' <= c && c <= 'z') || ('A' <= c && c <= 'Z') || ('0' <= c && c <= '9')
}

/// Quotes `s` for a shell command line.
pub fn shell_quote(s: &str) -> (out: String)
    ensures
        out@ == shell_quote_spec(s@),
{
    let v = chars_of(s);
    let mut i: usize = 0;
    let mut safe = true;
    while i < v.len()
        invariant
            i <= v.len(),
            v@ == s@,
            safe == forall|k: int| 0 <= k < i ==> shell_safe(#[trigger] v@[k]),
        decreases v.len() - i,
    {
        let c = v[i];
        let ok = is_ascii_alnum_exec(c) || c == '-' || c == '_' || c == '.' || c == '/' || c == '~';
        if !ok {
            safe = false;
        }
        i += 1;
    }
    if safe {
        return s.to_owned();
    }
    proof {
        reveal_strlit("'");
        reveal_strlit("'\\''");
        assert("'"@ =~= seq!['\'']);
    }
    let inner = replace_str(s, "'", "'\\''");
    let a = concat("'", inner.as_str());
    concat(a.as_str(), "'")
}

// ---------------------------------------------------------------------------
// Reading a quoted word back
// ---------------------------------------------------------------------------
/// The value of shell word text: unquoted safe characters stand for
/// themselves, `'...'` for what it encloses and `\c` for `c`; `None` when
/// the text is not made of these.
pub open spec fn word_value(w: Seq<char>) -> Option<Seq<char>>
    decreases w.len(),
{
    if w.len() == 0 {
        Some(Seq::empty())
    } else if w[0] == '\'' {
        quoted_value(w.drop_first())
    } else if w[0] == '\\' && w.len() >= 2 {
        match word_value(w.subrange(2, w.len() as int)) {
            Some(rest) => Some(seq![w[1]] + rest),
            None => None,
        }
    } else if shell_safe(w[0]) {
        match word_value(w.drop_first()) {
            Some(rest) => Some(seq![w[0]] + rest),
            None => None,
        }
    } else {
        None
    }
}

/// The value of the text after an opening `'`: the characters up to the
/// closing `'`, then the rest of the word.
pub open spec fn quoted_value(w: Seq<char>) -> Option<Seq<char>>
    decreases w.len(),
{
    if w.len() == 0 {
        None
    } else if w[0] == '\'' {
        word_value(w.drop_first())
    } else {
        match quoted_value(w.drop_first()) {
            Some(rest) => Some(seq![w[0]] + rest),
            None => None,
        }
    }
}

/// What a shell reads from one word of a command line: nothing for empty
/// text (no word at all), nothing for a word starting with an unquoted `~`
/// (which the shell expands), else the word's value.
pub open spec fn shell_word(w: Seq<char>) -> Option<Seq<char>> {
    if w.len() == 0 || w[0] == '~' {
        None
    } else {
        word_value(w)
    }
}

/// Each `'` of `x` written `'\''`.
pub open spec fn escape_quotes(x: Seq<char>) -> Seq<char>
    decreases x.len(),
{
    if x.len() == 0 {
        Seq::empty()
    } else {
        (if x[0] == '\'' {
            "'\\''"@
        } else {
            seq![x[0]]
        }) + escape_quotes(x.drop_first())
    }
}

proof fn lemma_replace_quotes(s: Seq<char>, from: int)
    requires
        0 <= from <= s.len(),
    ensures
        replace_from(s, seq!['\''], "'\\''"@, from) == escape_quotes(s.subrange(from, s.len() as int)),
    decreases s.len() - from,
{
    let q = seq!['\''];
    let t = "'\\''"@;
    if from == s.len() {
        assert(s.subrange(from, s.len() as int) =~= Seq::<char>::empty());
    } else {
        lemma_replace_quotes(s, from + 1);
        let x = s.subrange(from, s.len() as int);
        assert(x.drop_first() =~= s.subrange(from + 1, s.len() as int));
        assert(s.subrange(from, from + 1) =~= seq![s[from]]);
        crate::text::lemma_find_from_bounds(s, q, from + 1);
        if s[from] == '\'' {
            assert(s.subrange(from, from + 1) =~= q);
            assert(s.subrange(from, from) =~= Seq::<char>::empty());
            assert(replace_from(s, q, t, from) =~= t + replace_from(s, q, t, from + 1));
        } else {
            assert(s.subrange(from, from + 1)[0] != q[0]);
            assert(find_from(s, q, from) == find_from(s, q, from + 1));
            match find_from(s, q, from + 1) {
                Some(i) => {
                    assert(s.subrange(from, i) =~= seq![s[from]] + s.subrange(from + 1, i));
                },
                None => {
                    assert(s.subrange(from, s.len() as int) =~= seq![s[from]] + s.subrange(
                        from + 1,
                        s.len() as int,
                    ));
                },
            }
            assert(replace_from(s, q, t, from) =~= seq![s[from]] + replace_from(s, q, t, from + 1));
        }
    }
}

proof fn lemma_quoted_reads_back(x: Seq<char>)
    ensures
        quoted_value(escape_quotes(x) + seq!['\'']) == Some(x),
    decreases x.len(),
{
    reveal_strlit("'\\''");
    let e = escape_quotes(x) + seq!['\''];
    if x.len() == 0 {
        assert(e =~= seq!['\'']);
        assert(e.drop_first() =~= Seq::<char>::empty());
        assert(x =~= Seq::<char>::empty());
        assert(quoted_value(e) == word_value(e.drop_first()));
    } else {
        lemma_quoted_reads_back(x.drop_first());
        let rest = escape_quotes(x.drop_first()) + seq!['\''];
        if x[0] == '\'' {
            assert(e =~= seq!['\'', '\\', '\'', '\''] + rest);
            let w1 = e.drop_first();
            assert(w1 =~= seq!['\\', '\'', '\''] + rest);
            assert(w1.subrange(2, w1.len() as int) =~= seq!['\''] + rest);
            assert((seq!['\''] + rest).drop_first() =~= rest);
            assert(word_value(seq!['\''] + rest) == quoted_value(rest));
            assert(word_value(w1) == Some(seq![w1[1]] + x.drop_first()));
            assert(quoted_value(e) == word_value(w1));
            assert(seq![w1[1]] + x.drop_first() =~= x);
        } else {
            assert(e =~= seq![x[0]] + rest);
            assert(e.drop_first() =~= rest);
            assert(quoted_value(e) == Some(seq![x[0]] + x.drop_first()));
            assert(seq![x[0]] + x.drop_first() =~= x);
        }
    }
}

proof fn lemma_safe_reads_back(s: Seq<char>)
    requires
        forall|i: int| 0 <= i < s.len() ==> shell_safe(#[trigger] s[i]),
    ensures
        word_value(s) == Some(s),
    decreases s.len(),
{
    if s.len() > 0 {
        assert(forall|i: int| 0 <= i < s.drop_first().len() ==> s.drop_first()[i] == s[i + 1]);
        lemma_safe_reads_back(s.drop_first());
        assert(shell_safe(s[0]));
        assert(seq![s[0]] + s.drop_first() =~= s);
    }
}

/// A shell reads back exactly the text that was quoted, for every text
/// that is not empty and does not start with `~`.
pub proof fn law_quote_reads_back(s: Seq<char>)
    requires
        s.len() > 0,
        s[0] != '~',
    ensures
        shell_word(shell_quote_spec(s)) == Some(s),
{
    if forall|i: int| 0 <= i < s.len() ==> shell_safe(#[trigger] s[i]) {
        lemma_safe_reads_back(s);
    } else {
        lemma_replace_quotes(s, 0);
        assert(s.subrange(0, s.len() as int) =~= s);
        lemma_quoted_reads_back(s);
        let w = seq!['\''] + replace_all(s, seq!['\''], "'\\''"@) + seq!['\''];
        assert(w.drop_first() =~= escape_quotes(s) + seq!['\'']);
    }
}

/// The character an autostart file name keeps: ASCII letters, digits, `.`
/// and `-`; anything else becomes `_`.
pub open spec fn file_safe(c: char) -> char {
    if is_ascii_alnum(c) || c == '.' || c == '-' {
        c
    } else {
        '_'
    }
}

/// The autostart file of an application: `<safe id>.desktop`.
pub open spec fn autostart_file_spec(app_id: Seq<char>) -> Seq<char> {
    app_id.map_values(|c: char| file_safe(c)) + ".desktop"@
}

/// The autostart file name of an application.
pub fn autostart_file_name(app_id: &str) -> (out: String)
    ensures
        out@ == autostart_file_spec(app_id@),
{
    let v = chars_of(app_id);
    let mut out = String::new();
    let mut i: usize = 0;
    while i < v.len()
        invariant
            i <= v.len(),
            v@ == app_id@,
            out@ == v@.take(i as int).map_values(|c: char| file_safe(c)),
        decreases v.len() - i,
    {
        let c = v[i];
        let d = if is_ascii_alnum_exec(c) || c == '.' || c == '-' {
            c
        } else {
            '_'
        };
        out.push(d);
        proof {
            assert(v@.take(i + 1).map_values(|c: char| file_safe(c)) =~= v@.take(i as int).map_values(
                |c: char| file_safe(c),
            ).push(file_safe(v@[i as int])));
        }
        i += 1;
    }
    proof {
        assert(v@.take(v@.len() as int) =~= v@);
    }
    push_str(&mut out, ".desktop");
    out
}

/// The `Exec` line of a command line: each argument quoted, separated by
/// spaces.
pub open spec fn exec_line(args: Seq<Seq<char>>) -> Seq<char>
    decreases args.len(),
{
    if args.len() == 0 {
        Seq::empty()
    } else if args.len() == 1 {
        shell_quote_spec(args[0])
    } else {
        exec_line(args.drop_last()) + " "@ + shell_quote_spec(args.last())
    }
}

/// The text of an autostart entry.
pub open spec fn autostart_entry_spec(app_id: Seq<char>, args: Seq<Seq<char>>, flags: u32) -> Seq<
    char,
> {
    "[Desktop Entry]\nType=Application\nName="@ + app_id + "\nExec="@ + exec_line(args)
        + "\nX-GNOME-Autostart-enabled=true\n"@ + (if flags & 1 != 0 {
        "DBusActivatable=true\n"@
    } else {
        Seq::empty()
    }) + "X-Flatpak="@ + app_id + "\n"@
}

/// What enabling or disabling autostart does to the file system.
pub enum AutostartStep {
    /// Remove the entry with this file name.
    Remove(String),
    /// Write this text to the entry with this file name.
    Write(String, String),
    /// Nothing: there is no command line to start.
    Skip,
}

/// What to do for `EnableAutostart`: disabling removes the entry; enabling
/// writes one unless the command line is empty.
pub fn autostart_step(app_id: &str, enable: bool, commandline: &Vec<String>, flags: u32) -> (out:
    AutostartStep)
    ensures
        !enable ==> (out matches AutostartStep::Remove(f) && f@ == autostart_file_spec(app_id@)),
        enable && commandline.len() == 0 ==> out is Skip,
        enable && commandline.len() > 0 ==> (out matches AutostartStep::Write(f, body) && f@
            == autostart_file_spec(app_id@) && body@ == autostart_entry_spec(
            app_id@,
            commandline@.map_values(|s: String| s@),
            flags,
        )),
{
    let file = autostart_file_name(app_id);
    if !enable {
        return AutostartStep::Remove(file);
    }
    if commandline.len() == 0 {
        return AutostartStep::Skip;
    }
    let ghost args = commandline@.map_values(|s: String| s@);
    let mut exec = String::new();
    let mut i: usize = 0;
    while i < commandline.len()
        invariant
            i <= commandline.len(),
            args == commandline@.map_values(|s: String| s@),
            exec@ == exec_line(args.take(i as int)),
        decreases commandline.len() - i,
    {
        proof {
            assert(args.take(i + 1).drop_last() =~= args.take(i as int));
            assert(args.take(i + 1).last() == commandline@[i as int]@);
        }
        if i > 0 {
            push_str(&mut exec, " ");
        }
        let q = shell_quote(commandline[i].as_str());
        push_str(&mut exec, q.as_str());
        proof {
            if i == 0 {
                assert(exec@ =~= exec_line(args.take(1)));
            }
        }
        i += 1;
    }
    proof {
        assert(args.take(commandline.len() as int) =~= args);
    }
    let mut body = String::new();
    push_str(&mut body, "[Desktop Entry]\nType=Application\nName=");
    push_str(&mut body, app_id);
    push_str(&mut body, "\nExec=");
    push_str(&mut body, exec.as_str());
    push_str(&mut body, "\nX-GNOME-Autostart-enabled=true\n");
    if flags & 1 != 0 {
        push_str(&mut body, "DBusActivatable=true\n");
    }
    push_str(&mut body, "X-Flatpak=");
    push_str(&mut body, app_id);
    push_str(&mut body, "\n");
    proof {
        assert(body@ =~= autostart_entry_spec(app_id@, args, flags));
    }
    AutostartStep::Write(file, body)
}

// ---------------------------------------------------------------------------
// The prompt
// ---------------------------------------------------------------------------
/// The applications with a background prompt open. An application asked
/// about again while its prompt is open is allowed once without a second
/// prompt.
pub struct NoticeGate {
    warned: IdSet,
}

impl NoticeGate {
    /// The ids with a prompt open.
    pub closed spec fn open_ids(&self) -> Set<Seq<char>> {
        self.warned.ids()
    }

    /// No prompt is open.
    pub fn new() -> (out: NoticeGate)
        ensures
            out.open_ids() == Set::<Seq<char>>::empty(),
    {
        NoticeGate { warned: IdSet::new() }
    }

    /// Starts a prompt for `app_id`: `false` when one is already open for it
    /// (the request is then allowed once), `true` otherwise. An empty id is
    /// always prompted and never recorded.
    pub fn begin(&mut self, app_id: &str) -> (prompt: bool)
        ensures
            prompt == prompts(old(self).open_ids(), app_id@),
            final(self).open_ids() == after_begin(old(self).open_ids(), app_id@),
    {
        if app_id.is_empty() {
            return true;
        }
        self.warned.insert(app_id)
    }

    /// The prompt for `app_id` closed.
    pub fn finish(&mut self, app_id: &str)
        ensures
            final(self).open_ids() == old(self).open_ids().remove(app_id@),
    {
        self.warned.remove(app_id);
    }
}

/// Whether a request for `app_id` is prompted, given the ids with a prompt
/// open.
pub open spec fn prompts(open: Set<Seq<char>>, app_id: Seq<char>) -> bool {
    app_id.len() == 0 || !open.contains(app_id)
}

/// The ids with a prompt open once a request for `app_id` has begun.
pub open spec fn after_begin(open: Set<Seq<char>>, app_id: Seq<char>) -> Set<Seq<char>> {
    if app_id.len() == 0 {
        open
    } else {
        open.insert(app_id)
    }
}

/// While a prompt for an application is open, a second request for it is
/// not prompted; once that prompt closes, the next request is prompted
/// again. Requests without an id are always prompted.
pub proof fn law_one_prompt_at_a_time(open: Set<Seq<char>>, app_id: Seq<char>)
    ensures
        app_id.len() > 0 ==> !prompts(after_begin(open, app_id), app_id),
        prompts(after_begin(open, app_id).remove(app_id), app_id),
        app_id.len() == 0 ==> prompts(open, app_id),
{
}

/// The result sent for the dialog's answer: the background dialog's own
/// answer; for an older confirmation or access dialog, allow or forbid; a
/// dialog closed without an answer allows once.
pub open spec fn background_result_spec(reply: Option<PickerReply>) -> u32 {
    match reply {
        Some(PickerReply::Background { result }) => result,
        Some(PickerReply::Confirm { accepted }) => if accepted {
            ALLOW
        } else {
            FORBID
        },
        Some(PickerReply::Access(r)) => if r.granted {
            ALLOW
        } else {
            FORBID
        },
        _ => ALLOW_ONCE,
    }
}

/// The result sent for the dialog's answer.
pub fn background_result(reply: Option<PickerReply>) -> (out: u32)
    ensures
        out == background_result_spec(reply),
{
    match reply {
        Some(PickerReply::Background { result }) => result,
        Some(PickerReply::Confirm { accepted }) => if accepted {
            ALLOW
        } else {
            FORBID
        },
        Some(PickerReply::Access(r)) => if r.granted {
            ALLOW
        } else {
            FORBID
        },
        _ => ALLOW_ONCE,
    }
}

/// The name shown for the application: the name given, else (for an empty
/// id) "This application", else the name of its desktop entry when it has
/// one, else the id.
pub fn background_app_name(name: &str, app_id: &str, app: Option<&DesktopApp>) -> (out: String)
    ensures
        out@ == if name@.len() > 0 {
            name@
        } else if app_id@.len() == 0 {
            "This application"@
        } else {
            match app {
                Some(a) => if a.name@.len() > 0 {
                    a.name@
                } else {
                    app_id@
                },
                None => app_id@,
            }
        },
{
    if !name.is_empty() {
        return name.to_owned();
    }
    if app_id.is_empty() {
        return "This application".to_owned();
    }
    match app {
        Some(a) => if !a.name.as_str().is_empty() {
            a.name.clone()
        } else {
            app_id.to_owned()
        },
        None => app_id.to_owned(),
    }
}

/// The subtitle of the prompt.
pub fn background_subtitle(app_name: &str) -> (out: String)
    ensures
        out@ == app_name@ + " wants to remain running when it has no visible windows."@,
{
    concat(app_name, " wants to remain running when it has no visible windows.")
}

// ---------------------------------------------------------------------------
// Running applications
// ---------------------------------------------------------------------------
/// The state of each running application class: 2 for the active window's
/// class, 1 for others; unmapped windows and empty classes are left out, and
/// a class takes the highest state of its windows.
pub open spec fn app_state_map(clients: Seq<(Seq<char>, Option<bool>)>, active: Option<Seq<char>>) -> Map<
    Seq<char>,
    u32,
>
    decreases clients.len(),
{
    if clients.len() == 0 {
        Map::empty()
    } else {
        let m = app_state_map(clients.drop_last(), active);
        let (class, mapped) = clients.last();
        if class.len() == 0 || mapped == Some(false) {
            m
        } else {
            let state: u32 = if active == Some(class) {
                2
            } else {
                1
            };
            if m.contains_key(class) && m[class] >= state {
                m
            } else {
                m.insert(class, state)
            }
        }
    }
}

pub open spec fn states_view(v: Seq<(String, u32)>) -> Seq<(Seq<char>, u32)> {
    v.map_values(|e: (String, u32)| (e.0@, e.1))
}

/// The map a list of distinct keys stands for.
pub open spec fn as_map(v: Seq<(Seq<char>, u32)>) -> Map<Seq<char>, u32>
    decreases v.len(),
{
    if v.len() == 0 {
        Map::empty()
    } else {
        as_map(v.drop_last()).insert(v.last().0, v.last().1)
    }
}

pub open spec fn keys_distinct(v: Seq<(Seq<char>, u32)>) -> bool {
    forall|i: int, j: int| 0 <= i < j < v.len() ==> #[trigger] v[i].0 != #[trigger] v[j].0
}

proof fn lemma_as_map_update(v: Seq<(Seq<char>, u32)>, i: int, s: u32)
    requires
        keys_distinct(v),
        0 <= i < v.len(),
    ensures
        keys_distinct(v.update(i, (v[i].0, s))),
        as_map(v.update(i, (v[i].0, s))) == as_map(v).insert(v[i].0, s),
    decreases v.len(),
{
    let w = v.update(i, (v[i].0, s));
    assert forall|a: int, b: int| 0 <= a < b < w.len() implies #[trigger] w[a].0 != #[trigger] w[b].0 by {
        assert(w[a].0 == v[a].0);
        assert(w[b].0 == v[b].0);
    }
    if i == v.len() - 1 {
        assert(w.drop_last() =~= v.drop_last());
        assert(as_map(w) =~= as_map(v).insert(v[i].0, s));
    } else {
        lemma_as_map_update(v.drop_last(), i, s);
        assert(w.drop_last() =~= v.drop_last().update(i, (v[i].0, s)));
        assert(v.last().0 != v[i].0);
        assert(as_map(w) =~= as_map(v).insert(v[i].0, s));
    }
}

proof fn lemma_as_map_keys(v: Seq<(Seq<char>, u32)>, k: Seq<char>)
    ensures
        as_map(v).contains_key(k) <==> exists|i: int| 0 <= i < v.len() && #[trigger] v[i].0 == k,
        forall|i: int| 0 <= i < v.len() && keys_distinct(v) && #[trigger] v[i].0 == k ==> as_map(v)[k] == v[i].1,
    decreases v.len(),
{
    if v.len() > 0 {
        lemma_as_map_keys(v.drop_last(), k);
        if as_map(v).contains_key(k) && v.last().0 != k {
            let i = choose|i: int| 0 <= i < v.len() - 1 && #[trigger] v.drop_last()[i].0 == k;
            assert(v[i].0 == k);
        }
        if exists|i: int| 0 <= i < v.len() && #[trigger] v[i].0 == k {
            let i = choose|i: int| 0 <= i < v.len() && #[trigger] v[i].0 == k;
            if i < v.len() - 1 {
                assert(v.drop_last()[i].0 == k);
            }
        }
        assert forall|i: int| 0 <= i < v.len() && keys_distinct(v) && #[trigger] v[i].0 == k implies as_map(v)[k] == v[i].1 by {
            if i < v.len() - 1 {
                assert(v.drop_last()[i].0 == k);
                assert(keys_distinct(v.drop_last()));
            }
        }
    }
}

/// The running applications' states, one entry per class.
pub fn app_states(clients: &Vec<(String, Option<bool>)>, active: Option<&str>) -> (out: Vec<(String, u32)>)
    ensures
        keys_distinct(states_view(out@)),
        as_map(states_view(out@)) == app_state_map(
            clients@.map_values(|c: (String, Option<bool>)| (c.0@, c.1)),
            crate::paths::opt_str(active),
        ),
{
    let ghost cv = clients@.map_values(|c: (String, Option<bool>)| (c.0@, c.1));
    let ghost act = crate::paths::opt_str(active);
    let mut out: Vec<(String, u32)> = Vec::new();
    let mut i: usize = 0;
    while i < clients.len()
        invariant
            i <= clients.len(),
            cv == clients@.map_values(|c: (String, Option<bool>)| (c.0@, c.1)),
            act == crate::paths::opt_str(active),
            keys_distinct(states_view(out@)),
            as_map(states_view(out@)) == app_state_map(cv.take(i as int), act),
        decreases clients.len() - i,
    {
        proof {
            assert(cv.take(i + 1).drop_last() =~= cv.take(i as int));
            assert(cv.take(i + 1).last() == (clients@[i as int].0@, clients@[i as int].1));
        }
        let class = clients[i].0.as_str();
        let skip = class.is_empty() || clients[i].1 == Some(false);
        if !skip {
            let is_active = match active {
                Some(a) => str_eq(a, class),
                None => false,
            };
            let state: u32 = if is_active {
                2
            } else {
                1
            };
            let ghost sv = states_view(out@);
            let mut k: usize = 0;
            let mut found: Option<usize> = None;
            while k < out.len()
                invariant
                    k <= out.len(),
                    sv == states_view(out@),
                    found is None ==> forall|m: int| 0 <= m < k ==> sv[m].0 != class@,
                    found matches Some(f) ==> f < out.len() && sv[f as int].0 == class@,
                decreases out.len() - k,
            {
                if found.is_none() && str_eq(out[k].0.as_str(), class) {
                    found = Some(k);
                }
                k += 1;
            }
            proof {
                lemma_as_map_keys(sv, class@);
            }
            match found {
                Some(f) => {
                    if out[f].1 < state {
                        out.set(f, (class.to_owned(), state));
                        proof {
                            lemma_as_map_update(sv, f as int, state);
                            assert(states_view(out@) =~= sv.update(f as int, (sv[f as int].0, state)));
                        }
                    }
                },
                None => {
                    out.push((class.to_owned(), state));
                    proof {
                        assert(states_view(out@) =~= sv.push((class@, state)));
                        assert forall|a: int, b: int| 0 <= a < b < states_view(out@).len() implies
                            #[trigger] states_view(out@)[a].0 != #[trigger] states_view(out@)[b].0 by {
                            if b == sv.len() {
                                assert(states_view(out@)[a].0 == sv[a].0);
                            } else {
                                assert(states_view(out@)[a] == sv[a]);
                                assert(states_view(out@)[b] == sv[b]);
                            }
                        }
                        assert(states_view(out@).drop_last() =~= sv);
                    }
                },
            }
        }
        i += 1;
    }
    proof {
        assert(cv.take(clients.len() as int) =~= cv);
    }
    out
}

/// Whether a Hyprland event line changes the running applications.
pub fn is_app_event(line: &str) -> (out: bool)
    ensures
        out == ({
            let t = trim(line@);
            has_prefix(t, "openwindow>>"@) || has_prefix(t, "closewindow>>"@) || has_prefix(
                t,
                "activewindow>>"@,
            ) || has_prefix(t, "activewindowv2>>"@) || has_prefix(t, "urgent>>"@)
        }),
{
    let t = trim_str(line);
    let t = t.as_str();
    starts_with(t, "openwindow>>") || starts_with(t, "closewindow>>") || starts_with(
        t,
        "activewindow>>",
    ) || starts_with(t, "activewindowv2>>") || starts_with(t, "urgent>>")
}

/// Hyprland's event socket: `$XDG_RUNTIME_DIR/hypr/<signature>/.socket2.sock`
/// (the runtime directory defaulting to `/run/user/1000`); none without a
/// Hyprland instance signature.
pub fn socket2_path(signature: Option<&str>, runtime_dir: Option<&str>) -> (out: Option<String>)
    ensures
        match signature {
            None => out is None,
            Some(sig) => out matches Some(p) && p@ == join_path(
                join_path(
                    join_path(
                        match runtime_dir {
                            Some(r) => r@,
                            None => "/run/user/1000"@,
                        },
                        "hypr"@,
                    ),
                    sig@,
                ),
                ".socket2.sock"@,
            ),
        },
{
    let sig = match signature {
        Some(s) => s,
        None => return None,
    };
    let runtime = match runtime_dir {
        Some(r) => r,
        None => "/run/user/1000",
    };
    let a = path_join(runtime, "hypr");
    let b = path_join(a.as_str(), sig);
    Some(path_join(b.as_str(), ".socket2.sock"))
}

} // verus!
