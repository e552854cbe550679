//! The accounts of a softphone: the configuration file and the command line.
//!
//! The file has one section per account:
//!
//! ```text
//! [Catania]
//! host = pbx.example.org
//! port = 4569
//! user = 10001
//! secret = xxxxx
//! refresh = 60
//! ```
//!
//! `port` and `refresh` may be left out. Lines that start with `#` or `;`, and
//! lines before the first section, are comments.

use vstd::prelude::*;

use crate::client::Config;
use crate::client_model::ConfigModel;
use crate::consts;
use crate::words::{
    cut, cut_at, lines, lines_of, lines_view, lowered, number_upto, parse_number, same_text, text_from,
    texts_view, to_lowercase, trim, trimmed,
};

verus! {

/// The port of the protocol.
pub const IAX_PORT_DEFAULT: u16 = 4569;

/// How often to register, in seconds, if nothing else is asked for.
pub const REFRESH_DEFAULT: u16 = 60;

/// An account, and where its exchange is.
#[derive(Debug, Clone)]
pub struct Account {
    pub cfg: Config,
    pub host: String,
    pub port: u16,
}

/// What an account holds.
#[verifier::ext_equal]
pub ghost struct AccountModel {
    pub cfg: ConfigModel,
    pub host: Seq<char>,
    pub port: u16,
}

impl View for Account {
    type V = AccountModel;

    open spec fn view(&self) -> AccountModel {
        AccountModel { cfg: self.cfg@, host: self.host@, port: self.port }
    }
}

/// What a list of accounts holds.
pub open spec fn accounts_view(v: Seq<Account>) -> Seq<AccountModel> {
    v.map_values(|a: Account| a@)
}

impl AccountModel {
    /// An account that speaks u-law.
    pub open spec fn new(
        name: Seq<char>,
        host: Seq<char>,
        user: Seq<char>,
        secret: Seq<char>,
        port: u16,
        refresh: u16,
    ) -> AccountModel {
        AccountModel {
            cfg: ConfigModel {
                name,
                username: user,
                secret,
                refresh,
                audio_format: consts::format::ULAW,
            },
            host,
            port,
        }
    }
}

// --- lines of the file --------------------------------------------------------

/// A line of the file.
#[derive(Debug, Clone)]
pub enum Line {
    /// Nothing to read.
    Skip,
    /// `[name]`: an account starts.
    Section(String),
    /// `key = value`.
    Pair(String, String),
}

/// What a line says.
#[verifier::ext_equal]
pub ghost enum LineModel {
    Skip,
    Section(Seq<char>),
    Pair(Seq<char>, Seq<char>),
}

impl View for Line {
    type V = LineModel;

    open spec fn view(&self) -> LineModel {
        match *self {
            Line::Skip => LineModel::Skip,
            Line::Section(n) => LineModel::Section(n@),
            Line::Pair(k, v) => LineModel::Pair(k@, v@),
        }
    }
}

/// What a list of lines says.
pub open spec fn file_view(v: Seq<Line>) -> Seq<LineModel> {
    v.map_values(|l: Line| l@)
}

/// What a line without the white space around it says. A key is taken in lower
/// case.
pub open spec fn line_of(t: Seq<char>) -> LineModel {
    if t.len() == 0 || t[0] == '#' || t[0] == ';' {
        LineModel::Skip
    } else if t.len() >= 2 && t[0] == '[' && t.last() == ']' {
        LineModel::Section(trimmed(t.subrange(1, t.len() - 1)))
    } else {
        match cut_at(t, '=') {
            Some((k, v)) => LineModel::Pair(lowered(trimmed(k)), trimmed(v)),
            None => LineModel::Skip,
        }
    }
}

/// Reads a line.
fn read_line(raw: &[char]) -> (r: Line)
    ensures
        r@ == line_of(trimmed(raw@)),
{
    let t = trim(raw);
    let n = t.len();
    if n == 0 || t[0] == '#' || t[0] == ';' {
        Line::Skip
    } else if n >= 2 && t[0] == '[' && t[n - 1] == ']' {
        let name = trim(vstd::slice::slice_subrange(t.as_slice(), 1, n - 1));
        Line::Section(text_from(name.as_slice()))
    } else {
        match cut(t.as_slice(), '=') {
            Some((k, v)) => {
                let key = trim(k.as_slice());
                let value = trim(v.as_slice());
                Line::Pair(
                    to_lowercase(text_from(key.as_slice()).as_str()),
                    text_from(value.as_slice()),
                )
            },
            None => Line::Skip,
        }
    }
}

/// What the lines of a text say.
pub open spec fn file_of(text: Seq<char>) -> Seq<LineModel> {
    lines_of(text).map_values(|l: Seq<char>| line_of(trimmed(l)))
}

// --- accounts of the file -----------------------------------------------------

/// What was read of the section that is open.
#[verifier::ext_equal]
pub ghost struct SectionModel {
    pub name: Seq<char>,
    pub host: Option<Seq<char>>,
    pub user: Option<Seq<char>>,
    pub secret: Option<Seq<char>>,
    pub port: Option<Seq<char>>,
    pub refresh: Option<Seq<char>>,
}

impl SectionModel {
    /// A section that starts.
    pub open spec fn new(name: Seq<char>) -> SectionModel {
        SectionModel { name, host: None, user: None, secret: None, port: None, refresh: None }
    }

    /// The section after a pair: the last pair with a key counts.
    pub open spec fn with(self, key: Seq<char>, value: Seq<char>) -> SectionModel {
        if key == "host"@ {
            SectionModel { host: Some(value), ..self }
        } else if key == "user"@ {
            SectionModel { user: Some(value), ..self }
        } else if key == "secret"@ {
            SectionModel { secret: Some(value), ..self }
        } else if key == "port"@ {
            SectionModel { port: Some(value), ..self }
        } else if key == "refresh"@ {
            SectionModel { refresh: Some(value), ..self }
        } else {
            self
        }
    }

    /// The first key that is missing, if one is.
    pub open spec fn missing(self) -> Option<Seq<char>> {
        if self.host is None {
            Some("host"@)
        } else if self.user is None {
            Some("user"@)
        } else if self.secret is None {
            Some("secret"@)
        } else {
            None
        }
    }

    /// The account of a section that lacks nothing.
    pub open spec fn account(self) -> AccountModel {
        AccountModel::new(
            self.name,
            self.host->0,
            self.user->0,
            self.secret->0,
            u16_or(self.port, IAX_PORT_DEFAULT),
            u16_or(self.refresh, REFRESH_DEFAULT),
        )
    }
}

/// A 16-bit number, if there is one and it can be read; else the default.
pub open spec fn u16_or(text: Option<Seq<char>>, default: u16) -> u16 {
    match text {
        Some(t) => match number_upto(t, u16::MAX as u64) {
            Some(n) => n as u16,
            None => default,
        },
        None => default,
    }
}

/// How far a file was read: the accounts so far, the section that is open, or
/// why reading stopped.
#[verifier::ext_equal]
pub ghost struct ReadingModel {
    pub done: Seq<AccountModel>,
    pub open: Option<SectionModel>,
    pub error: Option<Seq<char>>,
}

impl ReadingModel {
    /// Before the first line.
    pub open spec fn new() -> ReadingModel {
        ReadingModel { done: Seq::empty(), open: None, error: None }
    }

    /// After the open section ended.
    pub open spec fn closed(self) -> ReadingModel {
        if self.error is Some || self.open is None {
            self
        } else {
            match self.open->0.missing() {
                Some(key) => ReadingModel {
                    error: Some("["@ + self.open->0.name + "] manca "@ + key),
                    open: None,
                    ..self
                },
                None => ReadingModel {
                    done: self.done.push(self.open->0.account()),
                    open: None,
                    ..self
                },
            }
        }
    }

    /// After one more line. Nothing is read after an error.
    pub open spec fn after(self, line: LineModel) -> ReadingModel {
        if self.error is Some {
            self
        } else {
            match line {
                LineModel::Skip => self,
                LineModel::Section(name) => {
                    let m = self.closed();
                    if m.error is Some {
                        m
                    } else {
                        ReadingModel { open: Some(SectionModel::new(name)), ..m }
                    }
                },
                LineModel::Pair(k, v) => match self.open {
                    Some(s) => ReadingModel { open: Some(s.with(k, v)), ..self },
                    None => self,
                },
            }
        }
    }
}

/// How far a list of lines is read.
pub open spec fn reading_of(lines: Seq<LineModel>) -> ReadingModel
    decreases lines.len(),
{
    if lines.len() == 0 {
        ReadingModel::new()
    } else {
        reading_of(lines.drop_last()).after(lines.last())
    }
}

/// The accounts of a list of lines, or what is missing in the first section
/// that lacks something.
pub open spec fn accounts_in(lines: Seq<LineModel>) -> Result<Seq<AccountModel>, Seq<char>> {
    let m = reading_of(lines).closed();
    match m.error {
        Some(e) => Err(e),
        None => Ok(m.done),
    }
}

/// What was read of the section that is open.
struct Section {
    name: String,
    host: Option<String>,
    user: Option<String>,
    secret: Option<String>,
    port: Option<String>,
    refresh: Option<String>,
}

/// What an optional text holds.
pub open spec fn option_text(t: Option<String>) -> Option<Seq<char>> {
    match t {
        Some(s) => Some(s@),
        None => None,
    }
}

impl View for Section {
    type V = SectionModel;

    closed spec fn view(&self) -> SectionModel {
        SectionModel {
            name: self.name@,
            host: option_text(self.host),
            user: option_text(self.user),
            secret: option_text(self.secret),
            port: option_text(self.port),
            refresh: option_text(self.refresh),
        }
    }
}

/// A 16-bit number, if there is one and it can be read; else the default.
fn parse_u16_or(text: Option<&str>, default: u16) -> (r: u16)
    ensures
        r == u16_or(
            match text {
                Some(t) => Some(t@),
                None => None,
            },
            default,
        ),
{
    match text {
        Some(t) => match parse_number(t, u16::MAX as u64) {
            Some(n) => n as u16,
            None => default,
        },
        None => default,
    }
}

impl Section {
    fn new(name: String) -> (r: Self)
        ensures
            r@ == SectionModel::new(name@),
    {
        Section { name, host: None, user: None, secret: None, port: None, refresh: None }
    }

    fn set(&mut self, key: String, value: String)
        ensures
            final(self)@ == old(self)@.with(key@, value@),
    {
        if same_text(key.as_str(), "host") {
            self.host = Some(value);
        } else if same_text(key.as_str(), "user") {
            self.user = Some(value);
        } else if same_text(key.as_str(), "secret") {
            self.secret = Some(value);
        } else if same_text(key.as_str(), "port") {
            self.port = Some(value);
        } else if same_text(key.as_str(), "refresh") {
            self.refresh = Some(value);
        }
    }
}

/// Closes the open section: adds its account, or says what is missing.
fn close(open: Option<Section>, done: &mut Vec<Account>) -> (r: Option<String>)
    ensures
        ({
            let before = ReadingModel {
                done: accounts_view(old(done)@),
                open: match open {
                    Some(s) => Some(s@),
                    None => None,
                },
                error: None,
            };
            before.closed() == (ReadingModel {
                done: accounts_view(final(done)@),
                open: None,
                error: option_text(r),
            })
        }),
{
    let section = match open {
        Some(s) => s,
        None => {
            return None;
        },
    };
    let port = match &section.port {
        Some(t) => parse_u16_or(Some(t.as_str()), IAX_PORT_DEFAULT),
        None => IAX_PORT_DEFAULT,
    };
    let refresh = match &section.refresh {
        Some(t) => parse_u16_or(Some(t.as_str()), REFRESH_DEFAULT),
        None => REFRESH_DEFAULT,
    };
    let host = match section.host {
        Some(h) => h,
        None => {
            return Some(missing(section.name.as_str(), "host"));
        },
    };
    let user = match section.user {
        Some(u) => u,
        None => {
            return Some(missing(section.name.as_str(), "user"));
        },
    };
    let secret = match section.secret {
        Some(s) => s,
        None => {
            return Some(missing(section.name.as_str(), "secret"));
        },
    };
    let ghost had = accounts_view(done@);
    let a = account(section.name, host, user, secret, port, refresh);
    done.push(a);
    assert(accounts_view(done@) =~= had.push(a@));
    None
}

fn account(
    name: String,
    host: String,
    user: String,
    secret: String,
    port: u16,
    refresh: u16,
) -> (r: Account)
    ensures
        r@ == AccountModel::new(name@, host@, user@, secret@, port, refresh),
{
    let mut cfg = Config::new(name.as_str(), user.as_str(), secret.as_str());
    cfg.refresh = refresh;
    Account { cfg, host, port }
}

fn missing(name: &str, key: &str) -> (r: String)
    ensures
        r@ == "["@ + name@ + "] manca "@ + key@,
{
    let mut s = String::new();
    s.append("[");
    s.append(name);
    s.append("] manca ");
    s.append(key);
    assert(s@ =~= "["@ + name@ + "] manca "@ + key@);
    s
}

/// Reads the accounts of a list of lines. The error names the section, and the
/// key that it lacks.
pub fn accounts_of(lines: Vec<Line>) -> (r: Result<Vec<Account>, String>)
    ensures
        match accounts_in(file_view(lines@)) {
            Ok(list) => r is Ok && accounts_view(r->Ok_0@) == list,
            Err(e) => r is Err && r->Err_0@ == e,
        },
{
    let ghost all = file_view(lines@);
    let mut done: Vec<Account> = Vec::new();
    let mut open: Option<Section> = None;
    assert(accounts_view(done@) =~= Seq::empty());
    assert(all.take(0) =~= Seq::empty());
    for line in it: lines
        invariant
            it.seq() == lines@,
            all == file_view(lines@),
            reading_of(all.take(it.index())) == (ReadingModel {
                done: accounts_view(done@),
                open: match open {
                    Some(s) => Some(s@),
                    None => None,
                },
                error: None,
            }),
    {
        proof {
            let n = it.index();
            assert(all.take(n + 1).drop_last() =~= all.take(n));
            assert(all.take(n + 1).last() == line@);
            lemma_reading_stops(all, n + 1);
        }
        match line {
            Line::Skip => {},
            Line::Section(name) => {
                if let Some(e) = close(open, &mut done) {
                    return Err(e);
                }
                open = Some(Section::new(name));
            },
            Line::Pair(key, value) => {
                if let Some(s) = open {
                    let mut s = s;
                    s.set(key, value);
                    open = Some(s);
                }
            },
        }
    }
    assert(all.take(lines@.len() as int) =~= all);
    match close(open, &mut done) {
        Some(e) => Err(e),
        None => Ok(done),
    }
}

/// Once reading has stopped, the rest of the lines changes nothing.
proof fn lemma_reading_stops(lines: Seq<LineModel>, n: int)
    requires
        0 <= n <= lines.len(),
    ensures
        reading_of(lines.take(n)).error is Some ==> reading_of(lines) == reading_of(lines.take(n)),
    decreases lines.len(),
{
    if n == lines.len() {
        assert(lines.take(n) =~= lines);
    } else {
        lemma_reading_stops(lines.drop_last(), n);
        assert(lines.drop_last().take(n) =~= lines.take(n));
    }
}

/// Reads the accounts of a configuration file.
pub fn parse_accounts(text: &str) -> (r: Result<Vec<Account>, String>)
    ensures
        match accounts_in(file_of(text@)) {
            Ok(list) => r is Ok && accounts_view(r->Ok_0@) == list,
            Err(e) => r is Err && r->Err_0@ == e,
        },
{
    let raw = lines(text);
    let ghost all = file_of(text@);
    let mut file: Vec<Line> = Vec::new();
    for i in 0..raw.len()
        invariant
            all == file_of(text@),
            lines_view(raw@) == lines_of(text@),
            file_view(file@) == all.take(i as int),
    {
        let ghost had = file_view(file@);
        let line = read_line(raw[i].as_slice());
        file.push(line);
        assert(lines_of(text@)[i as int] == raw@[i as int]@);
        assert(file_view(file@) =~= had.push(line@));
        assert(all.take(i + 1) =~= all.take(i as int).push(all[i as int]));
    }
    assert(all.take(all.len() as int) =~= all);
    accounts_of(file)
}

/// How many sections a list of lines starts.
pub open spec fn sections(lines: Seq<LineModel>) -> nat
    decreases lines.len(),
{
    if lines.len() == 0 {
        0
    } else {
        sections(lines.drop_last()) + if lines.last() is Section {
            1nat
        } else {
            0
        }
    }
}

/// A file that is read without an error gives one account per section.
pub proof fn law_one_account_per_section(lines: Seq<LineModel>)
    requires
        accounts_in(lines) is Ok,
    ensures
        accounts_in(lines)->Ok_0.len() == sections(lines),
{
    lemma_sections(lines);
}

proof fn lemma_sections(lines: Seq<LineModel>)
    ensures
        ({
            let m = reading_of(lines);
            m.error is None ==> m.done.len() + (if m.open is Some {
                1nat
            } else {
                0
            }) == sections(lines)
        }),
    decreases lines.len(),
{
    if lines.len() > 0 {
        lemma_sections(lines.drop_last());
    }
}

// --- the command line ---------------------------------------------------------

/// The argument at an index, if there is one.
pub open spec fn arg(args: Seq<Seq<char>>, i: int) -> Option<Seq<char>> {
    if i < args.len() {
        Some(args[i])
    } else {
        None
    }
}

/// The argument at an index as a 16-bit number, or the default.
pub fn u16_arg(args: &[String], i: usize, default: u16) -> (r: u16)
    ensures
        r == u16_or(arg(texts_view(args@), i as int), default),
{
    if i < args.len() {
        parse_u16_or(Some(args[i].as_str()), default)
    } else {
        parse_u16_or(None, default)
    }
}

/// The argument at an index as a 64-bit number, or the default.
pub fn u64_arg(args: &[String], i: usize, default: u64) -> (r: u64)
    ensures
        r == match arg(texts_view(args@), i as int) {
            Some(t) => match number_upto(t, u64::MAX) {
                Some(n) => n,
                None => default,
            },
            None => default,
        },
{
    if i < args.len() {
        match parse_number(args[i].as_str(), u64::MAX) {
            Some(n) => n,
            None => default,
        }
    } else {
        default
    }
}

/// The account that a command line gives: after the name of the program the
/// host, the user, the secret and, if they are there, the port, the refresh and
/// a label, which is the host otherwise.
pub open spec fn account_in(args: Seq<Seq<char>>) -> Option<AccountModel> {
    if args.len() < 4 {
        None
    } else {
        Some(
            AccountModel::new(
                match arg(args, 6) {
                    Some(name) => name,
                    None => args[1],
                },
                args[1],
                args[2],
                args[3],
                u16_or(arg(args, 4), IAX_PORT_DEFAULT),
                u16_or(arg(args, 5), REFRESH_DEFAULT),
            ),
        )
    }
}

/// Reads the account that a command line gives; `None` if it is too short.
pub fn account_from_args(args: &[String]) -> (r: Option<Account>)
    ensures
        r is Some == account_in(texts_view(args@)) is Some,
        r is Some ==> r->0@ == account_in(texts_view(args@))->0,
{
    if args.len() < 4 {
        return None;
    }
    let port = u16_arg(args, 4, IAX_PORT_DEFAULT);
    let refresh = u16_arg(args, 5, REFRESH_DEFAULT);
    let name = if args.len() > 6 {
        args[6].clone()
    } else {
        args[1].clone()
    };
    Some(account(name, args[1].clone(), args[2].clone(), args[3].clone(), port, refresh))
}

// --- what a file means --------------------------------------------------------

/// The value of the last pair with a key, if there is one.
pub open spec fn last_value(pairs: Seq<LineModel>, key: Seq<char>, value: Seq<char>) -> bool {
    exists|i: int|
        0 <= i < pairs.len() && #[trigger] pairs[i] == LineModel::Pair(key, value) && forall|j: int|
            i < j < pairs.len() ==> !((#[trigger] pairs[j]) is Pair && pairs[j]->Pair_0 == key)
}

/// No pair has the key.
pub open spec fn no_value(pairs: Seq<LineModel>, key: Seq<char>) -> bool {
    forall|j: int| 0 <= j < pairs.len() ==> !((#[trigger] pairs[j]) is Pair && pairs[j]->Pair_0 == key)
}

/// What a section says under a key is the value of the last pair with it.
pub open spec fn told(pairs: Seq<LineModel>, key: Seq<char>, v: Option<Seq<char>>) -> bool {
    match v {
        Some(x) => last_value(pairs, key, x),
        None => no_value(pairs, key),
    }
}

proof fn lemma_told_more(pairs: Seq<LineModel>, line: LineModel, key: Seq<char>, v: Option<Seq<char>>)
    requires
        told(pairs, key, v),
        line is Pair ==> line->Pair_0 != key,
    ensures
        told(pairs.push(line), key, v),
{
    let all = pairs.push(line);
    if v is Some {
        let i = choose|i: int|
            0 <= i < pairs.len() && #[trigger] pairs[i] == LineModel::Pair(key, v->0)
                && forall|j: int|
                i < j < pairs.len() ==> !((#[trigger] pairs[j]) is Pair && pairs[j]->Pair_0 == key);
        assert(all[i] == LineModel::Pair(key, v->0));
        assert forall|j: int| i < j < all.len() implies !((#[trigger] all[j]) is Pair
            && all[j]->Pair_0 == key) by {
            if j < pairs.len() {
                assert(all[j] == pairs[j]);
            }
        }
    } else {
        assert forall|j: int| 0 <= j < all.len() implies !((#[trigger] all[j]) is Pair
            && all[j]->Pair_0 == key) by {
            if j < pairs.len() {
                assert(all[j] == pairs[j]);
            }
        }
    }
}

proof fn lemma_told_now(pairs: Seq<LineModel>, key: Seq<char>, value: Seq<char>)
    ensures
        told(pairs.push(LineModel::Pair(key, value)), key, Some(value)),
{
    let all = pairs.push(LineModel::Pair(key, value));
    assert(all[pairs.len() as int] == LineModel::Pair(key, value));
}

/// What the open section of a file has been told.
pub open spec fn section_tells(pairs: Seq<LineModel>, s: SectionModel) -> bool {
    &&& told(pairs, "host"@, s.host)
    &&& told(pairs, "user"@, s.user)
    &&& told(pairs, "secret"@, s.secret)
    &&& told(pairs, "port"@, s.port)
    &&& told(pairs, "refresh"@, s.refresh)
}

proof fn lemma_section(before: Seq<LineModel>, name: Seq<char>, pairs: Seq<LineModel>)
    requires
        accounts_in(before) is Ok,
        forall|i: int| 0 <= i < pairs.len() ==> !((#[trigger] pairs[i]) is Section),
    ensures
        ({
            let m = reading_of(before.push(LineModel::Section(name)) + pairs);
            &&& m.error is None
            &&& m.done == accounts_in(before)->Ok_0
            &&& m.open is Some
            &&& m.open->0.name == name
            &&& section_tells(pairs, m.open->0)
        }),
    decreases pairs.len(),
{
    let head = before.push(LineModel::Section(name));
    let all = head + pairs;
    reveal_strlit("host");
    reveal_strlit("user");
    reveal_strlit("secret");
    reveal_strlit("port");
    reveal_strlit("refresh");
    assert("host"@[0] == 'h' && "user"@[0] == 'u' && "secret"@[0] == 's' && "port"@[0] == 'p'
        && "refresh"@[0] == 'r');
    if pairs.len() == 0 {
        assert(all =~= head);
        assert(head.drop_last() =~= before);
    } else {
        let most = pairs.drop_last();
        let line = pairs.last();
        assert forall|i: int| 0 <= i < most.len() implies !((#[trigger] most[i]) is Section) by {
            assert(most[i] == pairs[i]);
        }
        lemma_section(before, name, most);
        assert(all.drop_last() =~= head + most);
        assert(!(pairs[pairs.len() - 1] is Section));
        assert(pairs =~= most.push(line));
        let s = reading_of(head + most).open->0;
        let t = reading_of(all).open->0;
        if line is Pair {
            let k = line->Pair_0;
            let v = line->Pair_1;
            lemma_told_now(most, k, v);
            if k != "host"@ {
                lemma_told_more(most, line, "host"@, s.host);
            }
            if k != "user"@ {
                lemma_told_more(most, line, "user"@, s.user);
            }
            if k != "secret"@ {
                lemma_told_more(most, line, "secret"@, s.secret);
            }
            if k != "port"@ {
                lemma_told_more(most, line, "port"@, s.port);
            }
            if k != "refresh"@ {
                lemma_told_more(most, line, "refresh"@, s.refresh);
            }
        } else {
            lemma_told_more(most, line, "host"@, s.host);
            lemma_told_more(most, line, "user"@, s.user);
            lemma_told_more(most, line, "secret"@, s.secret);
            lemma_told_more(most, line, "port"@, s.port);
            lemma_told_more(most, line, "refresh"@, s.refresh);
        }
    }
}

/// A section at the end of a file adds one account, which has its name and what
/// the section says last of host, user and secret; the port and the refresh are
/// what it says last, if that is a 16-bit number, or else 4569 and 60; the audio
/// is u-law. A section that lacks one of the three is an error that names it and
/// the first that is missing.
pub proof fn law_section_gives_an_account(
    before: Seq<LineModel>,
    name: Seq<char>,
    pairs: Seq<LineModel>,
    host: Seq<char>,
    user: Seq<char>,
    secret: Seq<char>,
    port: Seq<char>,
    refresh: Seq<char>,
)
    requires
        accounts_in(before) is Ok,
        forall|i: int| 0 <= i < pairs.len() ==> !((#[trigger] pairs[i]) is Section),
    ensures
        ({
            let list = accounts_in(before)->Ok_0;
            let r = accounts_in(before.push(LineModel::Section(name)) + pairs);
            let whole = last_value(pairs, "host"@, host) && last_value(pairs, "user"@, user)
                && last_value(pairs, "secret"@, secret);
            &&& whole ==> {
                &&& r is Ok
                &&& r->Ok_0.len() == list.len() + 1
                &&& r->Ok_0.drop_last() == list
                &&& r->Ok_0.last().cfg.name == name
                &&& r->Ok_0.last().host == host
                &&& r->Ok_0.last().cfg.username == user
                &&& r->Ok_0.last().cfg.secret == secret
                &&& r->Ok_0.last().cfg.audio_format == 4
                &&& no_value(pairs, "port"@) ==> r->Ok_0.last().port == 4569
                &&& no_value(pairs, "refresh"@) ==> r->Ok_0.last().cfg.refresh == 60
                &&& last_value(pairs, "port"@, port) ==> r->Ok_0.last().port == match number_upto(
                    port,
                    65535,
                ) {
                    Some(n) => n as u16,
                    None => 4569,
                }
                &&& last_value(pairs, "refresh"@, refresh) ==> r->Ok_0.last().cfg.refresh
                    == match number_upto(refresh, 65535) {
                    Some(n) => n as u16,
                    None => 60,
                }
            }
            &&& no_value(pairs, "host"@) ==> r == Err::<Seq<AccountModel>, Seq<char>>(
                "["@ + name + "] manca "@ + "host"@,
            )
            &&& last_value(pairs, "host"@, host) && no_value(pairs, "user"@) ==> r == Err::<
                Seq<AccountModel>,
                Seq<char>,
            >("["@ + name + "] manca "@ + "user"@)
            &&& last_value(pairs, "host"@, host) && last_value(pairs, "user"@, user) && no_value(
                pairs,
                "secret"@,
            ) ==> r == Err::<Seq<AccountModel>, Seq<char>>(
                "["@ + name + "] manca "@ + "secret"@,
            )
        }),
{
    lemma_section(before, name, pairs);
    let m = reading_of(before.push(LineModel::Section(name)) + pairs);
    let s = m.open->0;
    lemma_told_once(pairs, "host"@, s.host, host);
    lemma_told_once(pairs, "user"@, s.user, user);
    lemma_told_once(pairs, "secret"@, s.secret, secret);
    lemma_told_once(pairs, "port"@, s.port, port);
    lemma_told_once(pairs, "refresh"@, s.refresh, refresh);
    let r = accounts_in(before.push(LineModel::Section(name)) + pairs);
    if r is Ok {
        assert(r->Ok_0.drop_last() =~= accounts_in(before)->Ok_0);
    }
}

/// A key has one last value, or none.
proof fn lemma_told_once(pairs: Seq<LineModel>, key: Seq<char>, v: Option<Seq<char>>, x: Seq<char>)
    requires
        told(pairs, key, v),
    ensures
        last_value(pairs, key, x) ==> v == Some(x),
        no_value(pairs, key) ==> v is None,
{
    if last_value(pairs, key, x) {
        let i = choose|i: int|
            0 <= i < pairs.len() && #[trigger] pairs[i] == LineModel::Pair(key, x) && forall|j: int|
                i < j < pairs.len() ==> !((#[trigger] pairs[j]) is Pair && pairs[j]->Pair_0 == key);
        assert(pairs[i] is Pair && pairs[i]->Pair_0 == key);
        if v is Some {
            let k = choose|k: int|
                0 <= k < pairs.len() && #[trigger] pairs[k] == LineModel::Pair(key, v->0)
                    && forall|j: int|
                    k < j < pairs.len() ==> !((#[trigger] pairs[j]) is Pair && pairs[j]->Pair_0
                        == key);
            assert(pairs[k] is Pair && pairs[k]->Pair_0 == key);
            assert(i == k);
        }
    }
    if no_value(pairs, key) && v is Some {
        let k = choose|k: int|
            0 <= k < pairs.len() && #[trigger] pairs[k] == LineModel::Pair(key, v->0)
                && forall|j: int|
                k < j < pairs.len() ==> !((#[trigger] pairs[j]) is Pair && pairs[j]->Pair_0 == key);
        assert(pairs[k] is Pair && pairs[k]->Pair_0 == key);
    }
}

/// A file without a section has no accounts, whatever else it says.
pub proof fn law_no_section_no_account(lines: Seq<LineModel>)
    requires
        forall|i: int| 0 <= i < lines.len() ==> !((#[trigger] lines[i]) is Section),
    ensures
        accounts_in(lines) == Ok::<Seq<AccountModel>, Seq<char>>(Seq::empty()),
{
    lemma_no_section(lines);
}

proof fn lemma_no_section(lines: Seq<LineModel>)
    requires
        forall|i: int| 0 <= i < lines.len() ==> !((#[trigger] lines[i]) is Section),
    ensures
        reading_of(lines) == ReadingModel::new(),
    decreases lines.len(),
{
    if lines.len() > 0 {
        let most = lines.drop_last();
        assert forall|i: int| 0 <= i < most.len() implies !((#[trigger] most[i]) is Section) by {
            assert(most[i] == lines[i]);
        }
        lemma_no_section(most);
        assert(!(lines[lines.len() - 1] is Section));
    }
}

/// What a line says: `[name]` starts the section of that name; `key = value` is
/// a pair, with the key in lower case; white space around a name, a key or a
/// value does not count; a comment, and any other line, says nothing.
pub proof fn law_lines_say(name: Seq<char>, key: Seq<char>, value: Seq<char>, t: Seq<char>)
    ensures
        line_of(seq!['['] + name + seq![']']) == LineModel::Section(trimmed(name)),
        key.len() > 0 && !key.contains('=') && key[0] != '#' && key[0] != ';' && key[0] != '['
            ==> line_of(key.push('=') + value) == LineModel::Pair(
            crate::words::lowered(trimmed(key)),
            trimmed(value),
        ),
        t.len() == 0 || t[0] == '#' || t[0] == ';' ==> line_of(t) == LineModel::Skip,
        t.len() > 0 && !t.contains('=') && t[0] != '[' ==> line_of(t) == LineModel::Skip,
{
    let s = seq!['['] + name + seq![']'];
    assert(s.subrange(1, s.len() - 1) =~= name);
    assert(s[0] == '[' && s.last() == ']');
    crate::text_laws::law_cutting(t, '=');
    if key.len() > 0 && !key.contains('=') && key[0] != '#' && key[0] != ';' && key[0] != '[' {
        let p = key.push('=') + value;
        crate::text_laws::law_cutting(p, '=');
        assert(p[key.len() as int] == '=');
        assert(p.contains('='));
        let (a, b) = cut_at(p, '=')->0;
        assert(p == a.push('=') + b);
        assert(a.len() == key.len()) by {
            if a.len() < key.len() {
                assert(p[a.len() as int] == '=');
                assert(key[a.len() as int] == '=');
                assert(key.contains('='));
            }
            if a.len() > key.len() {
                assert(a[key.len() as int] == '=');
                assert(a.contains('='));
            }
        }
        assert(a =~= key) by {
            assert forall|i: int| 0 <= i < a.len() implies a[i] == key[i] by {
                assert(p[i] == a[i] && p[i] == key[i]);
            }
        }
        assert(b =~= value) by {
            assert forall|i: int| 0 <= i < b.len() implies b[i] == value[i] by {
                assert(p[a.len() + 1 + i] == b[i] && p[key.len() + 1 + i] == value[i]);
            }
        }
        assert(p[0] == key[0]);
    }
}

/// The command line gives host, user and secret, and after them, where they are
/// there, the port, the refresh and the label; what is not there, or is no
/// 16-bit number, is 4569, 60 and the host. A shorter one gives no account.
pub proof fn law_command_line_gives_an_account(args: Seq<Seq<char>>)
    ensures
        account_in(args) is Some <==> args.len() >= 4,
        args.len() >= 4 ==> {
            let a = account_in(args)->0;
            &&& a.host == args[1] && a.cfg.username == args[2] && a.cfg.secret == args[3]
            &&& a.cfg.audio_format == 4
            &&& args.len() == 4 ==> a.port == 4569
            &&& args.len() <= 5 ==> a.cfg.refresh == 60
            &&& args.len() <= 6 ==> a.cfg.name == args[1]
            &&& args.len() > 4 ==> a.port == match number_upto(args[4], 65535) {
                Some(n) => n as u16,
                None => 4569,
            }
            &&& args.len() > 5 ==> a.cfg.refresh == match number_upto(args[5], 65535) {
                Some(n) => n as u16,
                None => 60,
            }
            &&& args.len() > 6 ==> a.cfg.name == args[6]
        },
{
}

/// A file is read line by line, without the white space around a line.
pub proof fn law_file_is_read_line_by_line(text: Seq<char>, i: int)
    ensures
        file_of(text).len() == lines_of(text).len(),
        0 <= i < lines_of(text).len() ==> file_of(text)[i] == line_of(trimmed(lines_of(text)[i])),
{
}

} // verus!
