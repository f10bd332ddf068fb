use vstd::prelude::*;

verus! {

// ---------------------------------------------------------------------------
// Session-list text: the multiplexer answers `list-sessions -F '#S'` with one
// line per session, the name wrapped in stray quote and newline characters.
// ---------------------------------------------------------------------------

/// Characters the multiplexer wraps around a session name in its listing.
pub open spec fn excluded_char(c: char) -> bool {
    c == '\'' || c == '\n' || c == '\r'
}

/// A listed line with the wrapping characters removed.
pub open spec fn cleaned(l: Seq<char>) -> Seq<char>
    decreases l.len(),
{
    if l.len() == 0 {
        Seq::empty()
    } else if excluded_char(l.last()) {
        cleaned(l.drop_last())
    } else {
        cleaned(l.drop_last()).push(l.last())
    }
}

proof fn lemma_cleaned_concat(a: Seq<char>, b: Seq<char>)
    ensures
        cleaned(a + b) == cleaned(a) + cleaned(b),
    decreases b.len(),
{
    if b.len() == 0 {
        assert(a + b =~= a);
        assert(cleaned(a) + cleaned(b) =~= cleaned(a));
    } else {
        assert((a + b).drop_last() =~= a + b.drop_last());
        lemma_cleaned_concat(a, b.drop_last());
        if excluded_char(b.last()) {
        } else {
            assert(cleaned(a) + cleaned(b.drop_last()).push(b.last()) =~= (cleaned(a) + cleaned(
                b.drop_last(),
            )).push(b.last()));
        }
    }
}

/// Index of the first newline of `s`, or `s.len()` when there is none.
pub open spec fn line_break(s: Seq<char>) -> int
    decreases s.len(),
{
    if s.len() == 0 {
        0
    } else if s.first() == '\n' {
        0
    } else {
        1 + line_break(s.drop_first())
    }
}

proof fn lemma_line_break(s: Seq<char>)
    ensures
        0 <= line_break(s) <= s.len(),
        line_break(s) < s.len() ==> s[line_break(s)] == '\n',
        forall|j: int| 0 <= j < line_break(s) ==> s[j] != '\n',
    decreases s.len(),
{
    if s.len() == 0 {
    } else if s.first() == '\n' {
    } else {
        lemma_line_break(s.drop_first());
        assert forall|j: int| 0 <= j < line_break(s) implies s[j] != '\n' by {
            if j > 0 {
                assert(s.drop_first()[j - 1] == s[j]);
            }
        }
    }
}

proof fn lemma_cleaned_single(c: char)
    requires
        !excluded_char(c),
    ensures
        cleaned(seq![c]) == seq![c],
{
    assert(seq![c].drop_last() =~= Seq::<char>::empty());
    assert(cleaned(Seq::<char>::empty()) == Seq::<char>::empty());
    assert(cleaned(seq![c]) =~= seq![c]);
}

proof fn lemma_line_break_is(s: Seq<char>, k: int)
    requires
        0 <= k <= s.len(),
        forall|j: int| 0 <= j < k ==> s[j] != '\n',
        k < s.len() ==> s[k] == '\n',
    ensures
        line_break(s) == k,
    decreases s.len(),
{
    if s.len() == 0 {
    } else if k == 0 {
    } else {
        assert(s.first() != '\n');
        assert(forall|j: int| 0 <= j < k - 1 ==> s.drop_first()[j] == s[j + 1]);
        assert(k - 1 < s.drop_first().len() ==> s.drop_first()[k - 1] == s[k]);
        lemma_line_break_is(s.drop_first(), k - 1);
    }
}

/// The lines of the listing, split at newlines.
pub open spec fn lines_of(s: Seq<char>) -> Seq<Seq<char>>
    decreases s.len(),
    via lines_of_decreases
{
    if s.len() == 0 {
        Seq::empty()
    } else {
        let k = line_break(s);
        if k >= s.len() {
            seq![s]
        } else {
            seq![s.take(k)] + lines_of(s.skip(k + 1))
        }
    }
}

#[via_fn]
proof fn lines_of_decreases(s: Seq<char>) {
    lemma_line_break(s);
}

/// Whether some listed line, once cleaned of the wrapping characters, is
/// exactly the given session name.
pub open spec fn session_listed(out: Seq<char>, name: Seq<char>) -> bool {
    exists|i: int| 0 <= i < lines_of(out).len() && cleaned(lines_of(out)[i]) == name
}

proof fn lemma_session_listed_step(s: Seq<char>, name: Seq<char>)
    requires
        s.len() > 0,
    ensures
        line_break(s) >= s.len() ==> (session_listed(s, name) <==> cleaned(s) == name),
        line_break(s) < s.len() ==> (session_listed(s, name) <==> (cleaned(
            s.take(line_break(s)),
        ) == name || session_listed(s.skip(line_break(s) + 1), name))),
{
    let k = line_break(s);
    lemma_line_break(s);
    if k >= s.len() {
        assert(lines_of(s) =~= seq![s]);
        if cleaned(s) == name {
            assert(cleaned(lines_of(s)[0]) == name);
        }
        if session_listed(s, name) {
            let i = choose|i: int|
                0 <= i < lines_of(s).len() && cleaned(lines_of(s)[i]) == name;
            assert(lines_of(s)[i] == s);
        }
    } else {
        let rest = s.skip(k + 1);
        assert(lines_of(s) =~= seq![s.take(k)] + lines_of(rest));
        if session_listed(s, name) {
            let i = choose|i: int|
                0 <= i < lines_of(s).len() && cleaned(lines_of(s)[i]) == name;
            if i == 0 {
                assert(cleaned(s.take(k)) == name);
            } else {
                assert(lines_of(s)[i] == lines_of(rest)[i - 1]);
                assert(0 <= i - 1 < lines_of(rest).len() && cleaned(lines_of(rest)[i - 1])
                    == name);
            }
        }
        if cleaned(s.take(k)) == name {
            assert(cleaned(lines_of(s)[0]) == name);
        }
        if session_listed(rest, name) {
            let i = choose|i: int|
                0 <= i < lines_of(rest).len() && cleaned(lines_of(rest)[i]) == name;
            assert(lines_of(s)[i + 1] == lines_of(rest)[i]);
            assert(0 <= i + 1 < lines_of(s).len() && cleaned(lines_of(s)[i + 1]) == name);
        }
    }
}

/// Index of the first newline of `s` at or after `start`, or the length when
/// there is none.
fn find_line_end(s: &str, start: usize) -> (j: usize)
    requires
        start <= s@.len(),
    ensures
        start <= j <= s@.len(),
        forall|t: int| start <= t < j ==> s@[t] != '\n',
        j < s@.len() ==> s@[j as int] == '\n',
{
    let n: usize = s.unicode_len();
    let mut j: usize = start;
    while j < n
        invariant
            n == s@.len(),
            start <= j <= n,
            forall|t: int| start <= t < j ==> s@[t] != '\n',
        decreases n - j,
    {
        if s.get_char(j) == '\n' {
            return j;
        }
        j += 1;
    }
    j
}

/// Whether the slice of `out` between `lo` and `hi`, cleaned of the wrapping
/// characters, is exactly `name`.
fn cleaned_matches(out: &str, lo: usize, hi: usize, name: &str) -> (r: bool)
    requires
        lo <= hi <= out@.len(),
    ensures
        r == (cleaned(out@.subrange(lo as int, hi as int)) == name@),
{
    let nn: usize = name.unicode_len();
    let mut j: usize = lo;
    let mut k: usize = 0;
    while j < hi
        invariant
            lo <= j <= hi <= out@.len(),
            k <= nn,
            nn == name@.len(),
            cleaned(out@.subrange(lo as int, j as int)) == name@.take(k as int),
        decreases hi - j,
    {
        let c = out.get_char(j);
        let ghost pref = out@.subrange(lo as int, j as int);
        proof {
            assert(out@.subrange(lo as int, j + 1 as int).drop_last() =~= pref);
            assert(out@.subrange(lo as int, j + 1 as int).last() == out@[j as int]);
        }
        if c == '\'' || c == '\n' || c == '\r' {
        } else {
            if k == nn {
                proof {
                    let seg = out@.subrange(lo as int, hi as int);
                    let rest = out@.subrange(j as int, hi as int);
                    let tail = out@.subrange(j + 1 as int, hi as int);
                    assert(seg =~= pref + rest);
                    lemma_cleaned_concat(pref, rest);
                    assert(rest =~= seq![out@[j as int]] + tail);
                    lemma_cleaned_concat(seq![out@[j as int]], tail);
                    lemma_cleaned_single(out@[j as int]);
                    assert(cleaned(seg).len() > name@.len());
                }
                return false;
            }
            let nc = name.get_char(k);
            if c != nc {
                proof {
                    let seg = out@.subrange(lo as int, hi as int);
                    let rest = out@.subrange(j as int, hi as int);
                    let tail = out@.subrange(j + 1 as int, hi as int);
                    assert(seg =~= pref + rest);
                    lemma_cleaned_concat(pref, rest);
                    assert(rest =~= seq![out@[j as int]] + tail);
                    lemma_cleaned_concat(seq![out@[j as int]], tail);
                    lemma_cleaned_single(out@[j as int]);
                    assert(cleaned(seg)[k as int] == out@[j as int]);
                }
                return false;
            }
            proof {
                assert(name@.take(k as int).push(name@[k as int]) =~= name@.take(k + 1 as int));
            }
            k += 1;
        }
        j += 1;
    }
    proof {
        if k == nn {
            assert(name@.take(nn as int) =~= name@);
        } else {
            assert(name@.take(k as int).len() < name@.len());
        }
    }
    k == nn
}

// ---------------------------------------------------------------------------
// Session names and the command surface.
// ---------------------------------------------------------------------------

/// The session name derived from a repository name: every `.` becomes `_`,
/// since the multiplexer disallows dots in session identifiers.
pub open spec fn session_name_of(s: Seq<char>) -> Seq<char> {
    s.map_values(|c: char| if c == '.' { '_' } else { c })
}

/// Derive the multiplexer session name for a repository short name.
pub fn derive_session_name(repo_name: &str) -> (r: String)
    ensures
        r@ == session_name_of(repo_name@),
{
    proof {
        reveal_strlit("_");
    }
    let n: usize = repo_name.unicode_len();
    let mut r = String::new();
    let mut i: usize = 0;
    while i < n
        invariant
            n == repo_name@.len(),
            i <= n,
            r@.len() == i,
            forall|j: int|
                0 <= j < i ==> r@[j] == (if repo_name@[j] == '.' {
                    '_'
                } else {
                    repo_name@[j]
                }),
        decreases n - i,
    {
        let c = repo_name.get_char(i);
        if c == '.' {
            proof {
                reveal_strlit("_");
            }
            r.append("_");
        } else {
            let piece = repo_name.substring_char(i, i + 1);
            r.append(piece);
        }
        i += 1;
    }
    proof {
        assert(r@ =~= session_name_of(repo_name@));
    }
    r
}

/// One fully-formed command line for the multiplexer client, socket selector
/// included, ready to be handed to the external process.
#[derive(Debug)]
pub struct TmuxCommand {
    pub args: Vec<String>,
}

impl TmuxCommand {
    /// The argument words, in order.
    pub open spec fn words(self) -> Seq<Seq<char>> {
        self.args@.map_values(|a: String| a@)
    }
}

/// The two words an optional flagged argument contributes.
pub open spec fn opt_flag(flag: Seq<char>, v: Option<&str>) -> Seq<Seq<char>> {
    match v {
        Option::Some(s) => seq![flag, s@],
        Option::None => Seq::empty(),
    }
}

/// How to bring the terminal to an existing session.
#[derive(Debug)]
pub enum SwitchPlan {
    /// The caller is outside the multiplexer: replace the process with an
    /// attach command.
    Attach(TmuxCommand),
    /// The caller is already inside a session: switch the client; if the
    /// switch does not report success, fall back to attaching.
    SwitchThenAttachOnFailure { switch: TmuxCommand, fallback: TmuxCommand },
}

/// What to do for a selected repository: `create` (if any) is issued first,
/// then the `switch` plan brings the terminal to the session.
#[derive(Debug)]
pub struct SessionPlan {
    pub create: Option<TmuxCommand>,
    pub switch: SwitchPlan,
}

/// The session reconciler. It holds the values read from the environment at
/// startup — the socket name that scopes every command, and whether the caller
/// is already inside a multiplexer session — and turns decisions into command
/// lines; an outer driver performs them.
#[derive(Debug)]
pub struct Tmux {
    socket_name: String,
    inside_session: bool,
}

impl Tmux {
    /// The socket (instance) name every command is scoped to.
    pub closed spec fn socket(self) -> Seq<char> {
        self.socket_name@
    }

    /// Whether the calling process is already inside a multiplexer session.
    pub closed spec fn inside(self) -> bool {
        self.inside_session
    }

    pub fn new(socket_name: String, inside_session: bool) -> (t: Tmux)
        ensures
            t.socket() == socket_name@,
            t.inside() == inside_session,
    {
        Tmux { socket_name, inside_session }
    }

    /// Every command starts with the socket selector.
    fn command_base(&self) -> (c: TmuxCommand)
        ensures
            c.args@.len() == 2,
            c.args@[0]@ == "-L"@,
            c.args@[1]@ == self.socket(),
            c.words() == seq!["-L"@, self.socket()],
    {
        let mut args: Vec<String> = Vec::new();
        args.push("-L".to_owned());
        args.push(self.socket_name.clone());
        let c = TmuxCommand { args };
        proof {
            assert(c.words() =~= seq!["-L"@, self.socket()]);
        }
        c
    }

    /// The command that captures the contents of a pane.
    pub fn capture_pane(&self, target_pane: &str) -> (c: TmuxCommand)
        ensures
            c.words() == seq!["-L"@, self.socket(), "capture-pane"@, "-ep"@, "-t"@, target_pane@],
    {
        let mut c = self.command_base();
        c.args.push("capture-pane".to_owned());
        c.args.push("-ep".to_owned());
        c.args.push("-t".to_owned());
        c.args.push(target_pane.to_owned());
        proof {
            assert(c.words() =~= seq![
                "-L"@,
                self.socket(),
                "capture-pane"@,
                "-ep"@,
                "-t"@,
                target_pane@,
            ]);
        }
        c
    }

    /// The command that lists the existing sessions in the given format.
    pub fn list_sessions(&self, format: &str) -> (c: TmuxCommand)
        ensures
            c.words() == seq!["-L"@, self.socket(), "list-sessions"@, "-F"@, format@],
    {
        let mut c = self.command_base();
        c.args.push("list-sessions".to_owned());
        c.args.push("-F".to_owned());
        c.args.push(format.to_owned());
        proof {
            assert(c.words() =~= seq![
                "-L"@,
                self.socket(),
                "list-sessions"@,
                "-F"@,
                format@,
            ]);
        }
        c
    }

    /// Whether the session list the multiplexer printed contains exactly the
    /// given name, once each line is cleaned of quote and newline wrapping.
    pub fn session_exists(&self, repo_short_name: &str, list_output: &str) -> (r: bool)
        ensures
            r == session_listed(list_output@, repo_short_name@),
    {
        let n: usize = list_output.unicode_len();
        let mut pos: usize = 0;
        proof {
            assert(list_output@.skip(0) =~= list_output@);
        }
        while pos < n
            invariant
                n == list_output@.len(),
                pos <= n,
                session_listed(list_output@, repo_short_name@) == session_listed(
                    list_output@.skip(pos as int),
                    repo_short_name@,
                ),
            decreases n - pos,
        {
            let j: usize = find_line_end(list_output, pos);
            let ghost suffix = list_output@.skip(pos as int);
            proof {
                assert(forall|t: int|
                    0 <= t < suffix.len() ==> suffix[t] == list_output@[pos + t]);
                lemma_line_break_is(suffix, j - pos as int);
                lemma_session_listed_step(suffix, repo_short_name@);
                assert(suffix.take(j - pos as int) =~= list_output@.subrange(
                    pos as int,
                    j as int,
                ));
            }
            let matched = cleaned_matches(list_output, pos, j, repo_short_name);
            if matched {
                proof {
                    if j - pos < suffix.len() {
                    } else {
                        assert(suffix =~= list_output@.subrange(pos as int, j as int));
                    }
                }
                return true;
            }
            if j == n {
                proof {
                    assert(suffix =~= list_output@.subrange(pos as int, j as int));
                    assert(!session_listed(suffix, repo_short_name@));
                    assert(list_output@.skip(n as int) =~= Seq::<char>::empty());
                    assert(lines_of(Seq::<char>::empty()) =~= Seq::<Seq<char>>::empty());
                }
                pos = n;
            } else {
                proof {
                    assert(suffix.skip(j - pos + 1 as int) =~= list_output@.skip(j + 1 as int));
                }
                pos = j + 1;
            }
        }
        proof {
            assert(list_output@.skip(pos as int) =~= Seq::<char>::empty());
            assert(lines_of(Seq::<char>::empty()) =~= Seq::<Seq<char>>::empty());
        }
        false
    }

    /// The detached session-creation command, with optional name and starting
    /// directory.
    pub fn new_session(&self, name: Option<&str>, path: Option<&str>) -> (c: TmuxCommand)
        ensures
            c.words() == seq!["-L"@, self.socket(), "new-session"@, "-d"@] + opt_flag("-s"@, name)
                + opt_flag("-c"@, path),
    {
        let mut c = self.command_base();
        c.args.push("new-session".to_owned());
        c.args.push("-d".to_owned());
        match name {
            Option::Some(nm) => {
                c.args.push("-s".to_owned());
                c.args.push(nm.to_owned());
            }
            Option::None => {}
        }
        match path {
            Option::Some(p) => {
                c.args.push("-c".to_owned());
                c.args.push(p.to_owned());
            }
            Option::None => {}
        }
        proof {
            match name {
                Option::Some(nm) => match path {
                    Option::Some(p) => {
                        assert(c.words() =~= seq!["-L"@, self.socket(), "new-session"@, "-d"@]
                            + opt_flag("-s"@, name) + opt_flag("-c"@, path));
                    }
                    Option::None => {
                        assert(c.words() =~= seq!["-L"@, self.socket(), "new-session"@, "-d"@]
                            + opt_flag("-s"@, name) + opt_flag("-c"@, path));
                    }
                },
                Option::None => match path {
                    Option::Some(p) => {
                        assert(c.words() =~= seq!["-L"@, self.socket(), "new-session"@, "-d"@]
                            + opt_flag("-s"@, name) + opt_flag("-c"@, path));
                    }
                    Option::None => {
                        assert(c.words() =~= seq!["-L"@, self.socket(), "new-session"@, "-d"@]
                            + opt_flag("-s"@, name) + opt_flag("-c"@, path));
                    }
                },
            }
        }
        c
    }

    /// The attach command, with optional target session and starting
    /// directory. Performing it replaces the calling process.
    pub fn attach_session(&self, session_name: Option<&str>, path: Option<&str>) -> (c:
        TmuxCommand)
        ensures
            c.words() == seq!["-L"@, self.socket(), "attach-session"@] + opt_flag(
                "-t"@,
                session_name,
            ) + opt_flag("-c"@, path),
    {
        let mut c = self.command_base();
        c.args.push("attach-session".to_owned());
        match session_name {
            Option::Some(nm) => {
                c.args.push("-t".to_owned());
                c.args.push(nm.to_owned());
            }
            Option::None => {}
        }
        match path {
            Option::Some(p) => {
                c.args.push("-c".to_owned());
                c.args.push(p.to_owned());
            }
            Option::None => {}
        }
        proof {
            match session_name {
                Option::Some(nm) => match path {
                    Option::Some(p) => {
                        assert(c.words() =~= seq!["-L"@, self.socket(), "attach-session"@]
                            + opt_flag("-t"@, session_name) + opt_flag("-c"@, path));
                    }
                    Option::None => {
                        assert(c.words() =~= seq!["-L"@, self.socket(), "attach-session"@]
                            + opt_flag("-t"@, session_name) + opt_flag("-c"@, path));
                    }
                },
                Option::None => match path {
                    Option::Some(p) => {
                        assert(c.words() =~= seq!["-L"@, self.socket(), "attach-session"@]
                            + opt_flag("-t"@, session_name) + opt_flag("-c"@, path));
                    }
                    Option::None => {
                        assert(c.words() =~= seq!["-L"@, self.socket(), "attach-session"@]
                            + opt_flag("-t"@, session_name) + opt_flag("-c"@, path));
                    }
                },
            }
        }
        c
    }

    /// The command that switches the attached client to the named session.
    pub fn switch_client(&self, session_name: &str) -> (c: TmuxCommand)
        ensures
            c.words() == seq!["-L"@, self.socket(), "switch-client"@, "-t"@, session_name@],
    {
        let mut c = self.command_base();
        c.args.push("switch-client".to_owned());
        c.args.push("-t".to_owned());
        c.args.push(session_name.to_owned());
        proof {
            assert(c.words() =~= seq![
                "-L"@,
                self.socket(),
                "switch-client"@,
                "-t"@,
                session_name@,
            ]);
        }
        c
    }

    /// How to bring the terminal to the named session: attach directly when
    /// the caller is outside the multiplexer; otherwise switch the client,
    /// attaching only if the switch does not report success.
    pub fn switch_to_session(&self, repo_short_name: &str) -> (p: SwitchPlan)
        ensures
            match p {
                SwitchPlan::Attach(c) => !self.inside() && c.words() == seq![
                    "-L"@,
                    self.socket(),
                    "attach-session"@,
                    "-t"@,
                    repo_short_name@,
                ],
                SwitchPlan::SwitchThenAttachOnFailure { switch, fallback } => self.inside()
                    && switch.words() == seq![
                    "-L"@,
                    self.socket(),
                    "switch-client"@,
                    "-t"@,
                    repo_short_name@,
                ] && fallback.words() == seq![
                    "-L"@,
                    self.socket(),
                    "attach-session"@,
                    "-t"@,
                    repo_short_name@,
                ],
            },
    {
        if !self.inside_session {
            let c = self.attach_session(Some(repo_short_name), None);
            proof {
                assert(c.words() =~= seq![
                    "-L"@,
                    self.socket(),
                    "attach-session"@,
                    "-t"@,
                    repo_short_name@,
                ]);
            }
            SwitchPlan::Attach(c)
        } else {
            let s = self.switch_client(repo_short_name);
            let f = self.attach_session(Some(repo_short_name), None);
            proof {
                assert(f.words() =~= seq![
                    "-L"@,
                    self.socket(),
                    "attach-session"@,
                    "-t"@,
                    repo_short_name@,
                ]);
            }
            SwitchPlan::SwitchThenAttachOnFailure { switch: s, fallback: f }
        }
    }

    /// The whole reconciliation for a selected repository: create the session
    /// first when it does not exist yet (detached, named, rooted at the
    /// resolved working path), then bring the terminal to it.
    pub fn session_start_plan(&self, session_name: &str, path: &str, session_exists: bool) -> (p:
        SessionPlan)
        ensures
            session_exists ==> (match p.create {
                Option::None => true,
                Option::Some(_) => false,
            }),
            !session_exists ==> (match p.create {
                Option::Some(c) => c.words() == seq![
                    "-L"@,
                    self.socket(),
                    "new-session"@,
                    "-d"@,
                    "-s"@,
                    session_name@,
                    "-c"@,
                    path@,
                ],
                Option::None => false,
            }),
            match p.switch {
                SwitchPlan::Attach(c) => !self.inside() && c.words() == seq![
                    "-L"@,
                    self.socket(),
                    "attach-session"@,
                    "-t"@,
                    session_name@,
                ],
                SwitchPlan::SwitchThenAttachOnFailure { switch, fallback } => self.inside()
                    && switch.words() == seq![
                    "-L"@,
                    self.socket(),
                    "switch-client"@,
                    "-t"@,
                    session_name@,
                ] && fallback.words() == seq![
                    "-L"@,
                    self.socket(),
                    "attach-session"@,
                    "-t"@,
                    session_name@,
                ],
            },
    {
        let create = if !session_exists {
            let c = self.new_session(Some(session_name), Some(path));
            proof {
                assert(c.words() =~= seq![
                    "-L"@,
                    self.socket(),
                    "new-session"@,
                    "-d"@,
                    "-s"@,
                    session_name@,
                    "-c"@,
                    path@,
                ]);
            }
            Some(c)
        } else {
            None
        };
        let switch = self.switch_to_session(session_name);
        SessionPlan { create, switch }
    }
}

} // verus!
