//! Providing databases on the node's database server.
//!
//! The panel chooses and keeps the names and passwords; here is which
//! statements are run over an admin connection, in which order, and what
//! happens when one fails.

use vstd::prelude::*;
use vstd::string::*;

use crate::config::DatabaseConfig;
use crate::text;

verus! {

/// The longest name of a database, in bytes.
pub const MAX_NAME_BYTES: usize = 64;

/// The longest name of a user, in bytes.
pub const MAX_USER_BYTES: usize = 32;

/// Why a name is not put into a statement.
#[derive(Debug, Clone, Copy, PartialEq, Eq, Structural)]
pub enum IdentError {
    /// It is empty or has more than so many bytes.
    Length(usize),
    /// It holds another character than a letter or digit of ASCII or an
    /// underscore.
    Characters,
}

impl IdentError {
    /// The error in words.
    pub open spec fn text(self) -> Seq<char> {
        match self {
            IdentError::Length(max) => "identifier length must be 1..="@ + text::decimal(max as nat),
            IdentError::Characters => "identifier may only contain [A-Za-z0-9_]"@,
        }
    }

    /// Writes the error in words.
    pub fn message(&self) -> (out: String)
        ensures
            out@ == self.text(),
    {
        match self {
            IdentError::Length(max) => {
                let mut out: String = "identifier length must be 1..=".to_owned();
                out.append(text::decimal_text(*max as u64).as_str());
                out
            },
            IdentError::Characters => "identifier may only contain [A-Za-z0-9_]".to_owned(),
        }
    }
}

/// Whether a character may stand in a name.
pub open spec fn is_ident_char(c: char) -> bool {
    ||| 'a' <= c <= 'z'
    ||| 'A' <= c <= 'Z'
    ||| '0' <= c <= '9'
    ||| c == '_'
}

/// Whether all characters may stand in a name.
pub open spec fn all_ident_chars(s: Seq<char>) -> bool {
    forall|i: int| 0 <= i < s.len() ==> is_ident_char(#[trigger] s[i])
}

/// What is wrong with a name.
pub open spec fn ident_fault(s: Seq<char>, max: usize) -> Option<IdentError> {
    let length = vstd::utf8::encode_utf8(s).len();
    if length == 0 || length > max {
        Some(IdentError::Length(max))
    } else if !all_ident_chars(s) {
        Some(IdentError::Characters)
    } else {
        None
    }
}

/// Checks a name before it is put into a statement, so that a malformed one can
/// never break out of its quotes.
pub fn validate_ident(s: &str, max: usize) -> (out: Result<(), IdentError>)
    ensures
        match out {
            Ok(_) => ident_fault(s@, max) is None,
            Err(e) => ident_fault(s@, max) == Some(e),
        },
{
    let bytes: &[u8] = s.as_bytes();
    if bytes.len() == 0 || bytes.len() > max {
        return Err(IdentError::Length(max));
    }
    let chars: Vec<char> = text::chars_of(s);
    let mut i: usize = 0;
    while i < chars.len()
        invariant
            chars@ == s@,
            i <= chars@.len(),
            0 < vstd::utf8::encode_utf8(s@).len() <= max,
            forall|j: int| 0 <= j < i ==> is_ident_char(#[trigger] chars@[j]),
        decreases chars@.len() - i,
    {
        let c: char = chars[i];
        if !(('a' <= c && c <= 'z') || ('A' <= c && c <= 'Z') || ('0' <= c && c <= '9') || c == '_') {
            assert(!is_ident_char(s@[i as int]));
            return Err(IdentError::Characters);
        }
        i = i + 1;
    }
    Ok(())
}

/// A name that passes the check holds no quote, no backslash and no blank.
pub proof fn law_checked_name_cannot_break_out(s: Seq<char>, max: usize)
    requires
        ident_fault(s, max) is None,
    ensures
        s.len() > 0,
        !s.contains('`'),
        !s.contains('\''),
        !s.contains('\\'),
        !s.contains(' '),
        !s.contains(';'),
{
    if s.len() == 0 {
        assert(s =~= Seq::<char>::empty());
        vstd::utf8::is_ascii_chars_encode_utf8(s);
    }
}

/// A character as it is written inside the quotes of a statement.
pub open spec fn escaped_char(c: char) -> Seq<char> {
    if c == '\\' {
        seq!['\\', '\\']
    } else if c == '\'' {
        seq!['\\', '\'']
    } else {
        seq![c]
    }
}

/// A text as it is written inside the quotes of a statement.
pub open spec fn escaped(s: Seq<char>) -> Seq<char>
    decreases s.len(),
{
    if s.len() == 0 {
        seq![]
    } else {
        escaped(s.drop_last()) + escaped_char(s.last())
    }
}

/// Writes a text so that it can stand inside the quotes of a statement.
pub fn escape_sql_string(s: &str) -> (out: String)
    ensures
        out@ == escaped(s@),
{
    let chars: Vec<char> = text::chars_of(s);
    let mut out: String = String::new();
    let mut i: usize = 0;
    assert(out@ =~= escaped(chars@.take(0)));
    while i < chars.len()
        invariant
            i <= chars@.len(),
            out@ == escaped(chars@.take(i as int)),
        decreases chars@.len() - i,
    {
        assert(chars@.take(i + 1).drop_last() =~= chars@.take(i as int));
        let ghost before = out@;
        let c: char = chars[i];
        if c == '\\' || c == '\'' {
            out.push('\\');
        }
        out.push(c);
        assert(out@ =~= before + escaped_char(c));
        i = i + 1;
    }
    assert(chars@.take(i as int) =~= s@);
    out
}

/// What a database server reads from just behind an opening quote: the text up
/// to the closing quote, and what follows that.
pub open spec fn read_quoted(s: Seq<char>) -> Option<(Seq<char>, Seq<char>)>
    decreases s.len(),
{
    if s.len() == 0 {
        None
    } else if s[0] == '\'' {
        Some((seq![], s.skip(1)))
    } else if s[0] == '\\' {
        if s.len() >= 2 && (s[1] == '\\' || s[1] == '\'') {
            match read_quoted(s.skip(2)) {
                Some((t, rest)) => Some((seq![s[1]] + t, rest)),
                None => None,
            }
        } else {
            None
        }
    } else {
        match read_quoted(s.skip(1)) {
            Some((t, rest)) => Some((seq![s[0]] + t, rest)),
            None => None,
        }
    }
}

/// The escaped form of a text, from its front.
proof fn lemma_escaped_front(s: Seq<char>)
    requires
        s.len() > 0,
    ensures
        escaped(s) == escaped_char(s[0]) + escaped(s.skip(1)),
    decreases s.len(),
{
    if s.len() == 1 {
        assert(s.drop_last() =~= Seq::<char>::empty());
        assert(s.skip(1) =~= Seq::<char>::empty());
        assert(escaped(s) =~= escaped_char(s[0]) + escaped(s.skip(1)));
    } else {
        lemma_escaped_front(s.drop_last());
        assert(s.drop_last().skip(1) =~= s.skip(1).drop_last());
        assert(escaped(s) =~= escaped_char(s[0]) + escaped(s.skip(1)));
    }
}

/// Whatever a password holds, the server reads exactly it out of the statement:
/// it cannot end its quotes early, and what follows the quotes is left as it is.
pub proof fn law_escaped_text_reads_back(s: Seq<char>, rest: Seq<char>)
    ensures
        read_quoted(escaped(s) + seq!['\''] + rest) == Some((s, rest)),
    decreases s.len(),
{
    let whole = escaped(s) + seq!['\''] + rest;
    if s.len() == 0 {
        assert(whole.skip(1) =~= rest);
        assert(s =~= Seq::<char>::empty());
    } else {
        let c = s[0];
        let inner = escaped(s.skip(1)) + seq!['\''] + rest;
        lemma_escaped_front(s);
        law_escaped_text_reads_back(s.skip(1), rest);
        assert(whole =~= escaped_char(c) + inner);
        if c == '\\' || c == '\'' {
            assert(whole.skip(2) =~= inner);
        } else {
            assert(whole.skip(1) =~= inner);
        }
        assert(seq![c] + s.skip(1) =~= s);
    }
}

/// What failed of a request for a database.
#[derive(Debug, Clone, Copy, PartialEq, Eq, Structural)]
pub enum DbError {
    InvalidName(IdentError),
    InvalidUser(IdentError),
    Connect,
    CreateDatabase,
    CreateUser,
    Grant,
    DropDatabase,
}

impl DbError {
    /// The error in words.
    pub open spec fn text(self) -> Seq<char> {
        match self {
            DbError::InvalidName(_) => "invalid database name"@,
            DbError::InvalidUser(_) => "invalid database user"@,
            DbError::Connect => "connect to MariaDB"@,
            DbError::CreateDatabase => "create database"@,
            DbError::CreateUser => "create user"@,
            DbError::Grant => "grant privileges"@,
            DbError::DropDatabase => "drop database"@,
        }
    }

    /// Writes the error in words.
    pub fn message(&self) -> (out: String)
        ensures
            out@ == self.text(),
    {
        let said: &str = match self {
            DbError::InvalidName(_) => "invalid database name",
            DbError::InvalidUser(_) => "invalid database user",
            DbError::Connect => "connect to MariaDB",
            DbError::CreateDatabase => "create database",
            DbError::CreateUser => "create user",
            DbError::Grant => "grant privileges",
            DbError::DropDatabase => "drop database",
        };
        said.to_owned()
    }
}

/// How far a request for a database has come.
#[derive(Debug, Clone, Copy, PartialEq, Eq, Structural)]
pub enum DbStage {
    CreateDatabase,
    CreateUser,
    Grant,
    /// A part of what was created could not be completed: undo it.
    UndoDatabase(DbError),
    UndoUser(DbError),
    DropDatabase,
    DropUser,
    Flush,
    Done,
    Failed(DbError),
}

/// The stage that follows another one, given whether its statement succeeded.
/// Statements take effect at once, so that what a failure leaves half done has
/// to be undone by further ones; how those go does not matter.
pub open spec fn stage_after(stage: DbStage, succeeded: bool) -> DbStage {
    match stage {
        DbStage::CreateDatabase => if succeeded {
            DbStage::CreateUser
        } else {
            DbStage::Failed(DbError::CreateDatabase)
        },
        DbStage::CreateUser => if succeeded {
            DbStage::Grant
        } else {
            DbStage::UndoDatabase(DbError::CreateUser)
        },
        DbStage::Grant => if succeeded {
            DbStage::Flush
        } else {
            DbStage::UndoDatabase(DbError::Grant)
        },
        DbStage::UndoDatabase(e) => DbStage::UndoUser(e),
        DbStage::UndoUser(e) => DbStage::Failed(e),
        DbStage::DropDatabase => if succeeded {
            DbStage::DropUser
        } else {
            DbStage::Failed(DbError::DropDatabase)
        },
        DbStage::DropUser => DbStage::Flush,
        DbStage::Flush => DbStage::Done,
        DbStage::Done => DbStage::Done,
        DbStage::Failed(e) => DbStage::Failed(e),
    }
}

/// A request that is being carried out.
#[derive(Debug, Clone)]
pub struct DbRequest {
    name: String,
    user: String,
    password: String,
    stage: DbStage,
}

/// The statement of a stage; none where the request has come to its end.
pub open spec fn statement_text(
    stage: DbStage,
    name: Seq<char>,
    user: Seq<char>,
    password: Seq<char>,
) -> Option<Seq<char>> {
    match stage {
        DbStage::CreateDatabase => Some("CREATE DATABASE IF NOT EXISTS `"@ + name + "`"@),
        DbStage::CreateUser => Some(
            "CREATE USER IF NOT EXISTS '"@ + user + "'@'%' IDENTIFIED BY '"@ + escaped(password) + "'"@,
        ),
        DbStage::Grant => Some("GRANT ALL PRIVILEGES ON `"@ + name + "`.* TO '"@ + user + "'@'%'"@),
        DbStage::UndoDatabase(_) => Some("DROP DATABASE IF EXISTS `"@ + name + "`"@),
        DbStage::UndoUser(_) => Some("DROP USER IF EXISTS '"@ + user + "'@'%'"@),
        DbStage::DropDatabase => Some("DROP DATABASE IF EXISTS `"@ + name + "`"@),
        DbStage::DropUser => Some("DROP USER IF EXISTS '"@ + user + "'@'%'"@),
        DbStage::Flush => Some("FLUSH PRIVILEGES"@),
        DbStage::Done => None,
        DbStage::Failed(_) => None,
    }
}

impl DbRequest {
    /// How far the request has come.
    pub closed spec fn at(&self) -> DbStage {
        self.stage
    }

    /// The name of the database.
    pub closed spec fn database(&self) -> Seq<char> {
        self.name@
    }

    /// The name of its user.
    pub closed spec fn owner(&self) -> Seq<char> {
        self.user@
    }

    /// The user's password.
    pub closed spec fn secret(&self) -> Seq<char> {
        self.password@
    }

    /// How far the request has come.
    pub fn stage(&self) -> (out: DbStage)
        ensures
            out == self.at(),
    {
        self.stage
    }

    /// The statement to run next, if the request has not come to its end.
    pub fn statement(&self) -> (out: Option<String>)
        ensures
            match out {
                Some(sql) => statement_text(self.at(), self.database(), self.owner(), self.secret()) == Some(sql@),
                None => statement_text(self.at(), self.database(), self.owner(), self.secret()) is None,
            },
    {
        match self.stage {
            DbStage::CreateDatabase => Some(
                text::concat3("CREATE DATABASE IF NOT EXISTS `", self.name.as_str(), "`"),
            ),
            DbStage::CreateUser => {
                let password: String = escape_sql_string(self.password.as_str());
                let mut sql: String = text::concat3(
                    "CREATE USER IF NOT EXISTS '",
                    self.user.as_str(),
                    "'@'%' IDENTIFIED BY '",
                );
                sql.append(password.as_str());
                sql.append("'");
                Some(sql)
            },
            DbStage::Grant => {
                let mut sql: String = text::concat3("GRANT ALL PRIVILEGES ON `", self.name.as_str(), "`.* TO '");
                sql.append(self.user.as_str());
                sql.append("'@'%'");
                Some(sql)
            },
            DbStage::UndoDatabase(_) | DbStage::DropDatabase => Some(
                text::concat3("DROP DATABASE IF EXISTS `", self.name.as_str(), "`"),
            ),
            DbStage::UndoUser(_) | DbStage::DropUser => Some(
                text::concat3("DROP USER IF EXISTS '", self.user.as_str(), "'@'%'"),
            ),
            DbStage::Flush => Some("FLUSH PRIVILEGES".to_owned()),
            DbStage::Done | DbStage::Failed(_) => None,
        }
    }

    /// Goes on, given whether the statement succeeded.
    pub fn advance(&mut self, succeeded: bool)
        ensures
            final(self).at() == stage_after(old(self).at(), succeeded),
            final(self).database() == old(self).database(),
            final(self).owner() == old(self).owner(),
            final(self).secret() == old(self).secret(),
    {
        self.stage = match self.stage {
            DbStage::CreateDatabase => if succeeded {
                DbStage::CreateUser
            } else {
                DbStage::Failed(DbError::CreateDatabase)
            },
            DbStage::CreateUser => if succeeded {
                DbStage::Grant
            } else {
                DbStage::UndoDatabase(DbError::CreateUser)
            },
            DbStage::Grant => if succeeded {
                DbStage::Flush
            } else {
                DbStage::UndoDatabase(DbError::Grant)
            },
            DbStage::UndoDatabase(e) => DbStage::UndoUser(e),
            DbStage::UndoUser(e) => DbStage::Failed(e),
            DbStage::DropDatabase => if succeeded {
                DbStage::DropUser
            } else {
                DbStage::Failed(DbError::DropDatabase)
            },
            DbStage::DropUser => DbStage::Flush,
            DbStage::Flush => DbStage::Done,
            DbStage::Done => DbStage::Done,
            DbStage::Failed(e) => DbStage::Failed(e),
        };
    }
}

/// What the node tells users about its database server.
#[derive(Debug, Clone)]
pub struct DbAdmin {
    public_host: String,
    public_port: u16,
}

/// What is wrong with the names of a database and its user.
pub open spec fn names_fault(name: Seq<char>, user: Seq<char>) -> Option<DbError> {
    match ident_fault(name, MAX_NAME_BYTES) {
        Some(e) => Some(DbError::InvalidName(e)),
        None => match ident_fault(user, MAX_USER_BYTES) {
            Some(e) => Some(DbError::InvalidUser(e)),
            None => None,
        },
    }
}

/// Checks the names of a database and its user.
fn check_names(name: &str, user: &str) -> (out: Result<(), DbError>)
    ensures
        match out {
            Ok(_) => names_fault(name@, user@) is None,
            Err(e) => names_fault(name@, user@) == Some(e),
        },
{
    if let Err(e) = validate_ident(name, MAX_NAME_BYTES) {
        return Err(DbError::InvalidName(e));
    }
    if let Err(e) = validate_ident(user, MAX_USER_BYTES) {
        return Err(DbError::InvalidUser(e));
    }
    Ok(())
}

impl DbAdmin {
    /// The host that users are told to connect to.
    pub closed spec fn host(&self) -> Seq<char> {
        self.public_host@
    }

    /// The port that users are told to connect to.
    pub closed spec fn port(&self) -> u16 {
        self.public_port
    }

    /// The database server of a configuration.
    pub fn new(cfg: &DatabaseConfig) -> (out: Self)
        ensures
            out.host() == cfg.public_host@,
            out.port() == cfg.public_port,
    {
        DbAdmin { public_host: cfg.public_host.clone(), public_port: cfg.public_port }
    }

    /// The host that users are told to connect to.
    pub fn public_host(&self) -> (out: &str)
        ensures
            out@ == self.host(),
    {
        self.public_host.as_str()
    }

    /// The port that users are told to connect to.
    pub fn public_port(&self) -> (out: u16)
        ensures
            out == self.port(),
    {
        self.public_port
    }

    /// Begins to create a database and a user who has all privileges on it. The
    /// statements leave what is already there as it is, so that a request can be
    /// repeated.
    pub fn create_database(&self, name: &str, user: &str, password: &str) -> (out: Result<DbRequest, DbError>)
        ensures
            match out {
                Ok(request) => {
                    &&& names_fault(name@, user@) is None
                    &&& request.at() == DbStage::CreateDatabase
                    &&& request.database() == name@
                    &&& request.owner() == user@
                    &&& request.secret() == password@
                    &&& begins_creation(request, name@, user@, password@)
                },
                Err(e) => names_fault(name@, user@) == Some(e),
            },
    {
        match check_names(name, user) {
            Err(e) => Err(e),
            Ok(_) => Ok(
                DbRequest {
                    name: name.to_owned(),
                    user: user.to_owned(),
                    password: password.to_owned(),
                    stage: DbStage::CreateDatabase,
                },
            ),
        }
    }

    /// Begins to drop a database and its user. What is not there is passed over.
    pub fn delete_database(&self, name: &str, user: &str) -> (out: Result<DbRequest, DbError>)
        ensures
            match out {
                Ok(request) => {
                    &&& names_fault(name@, user@) is None
                    &&& request.at() == DbStage::DropDatabase
                    &&& request.database() == name@
                    &&& request.owner() == user@
                    &&& begins_deletion(request, name@, user@)
                },
                Err(e) => names_fault(name@, user@) == Some(e),
            },
    {
        match check_names(name, user) {
            Err(e) => Err(e),
            Ok(_) => Ok(
                DbRequest {
                    name: name.to_owned(),
                    user: user.to_owned(),
                    password: String::new(),
                    stage: DbStage::DropDatabase,
                },
            ),
        }
    }
}

/// The stages of a request that starts at `stage`, given how its statements go.
pub open spec fn stages(stage: DbStage, outcomes: Seq<bool>) -> Seq<DbStage>
    decreases outcomes.len(),
{
    if outcomes.len() == 0 {
        seq![stage]
    } else {
        seq![stage] + stages(stage_after(stage, outcomes[0]), outcomes.drop_first())
    }
}

/// Whether a request has come to its end.
pub open spec fn is_final(stage: DbStage) -> bool {
    stage is Done || stage is Failed
}

/// A request comes to its end with five statements at most, however they go.
pub proof fn law_request_ends(start: DbStage, a: bool, b: bool, c: bool, d: bool, e: bool)
    requires
        start == DbStage::CreateDatabase || start == DbStage::DropDatabase,
    ensures
        is_final(
            stage_after(
                stage_after(stage_after(stage_after(stage_after(start, a), b), c), d),
                e,
            ),
        ),
{
}

/// Whether some stage of a request is the given one.
pub open spec fn passes(start: DbStage, outcomes: Seq<bool>, stage: DbStage) -> bool {
    stages(start, outcomes).contains(stage)
}

/// A stage that a request passes later on is one that it passes.
proof fn lemma_passes_later(start: DbStage, outcomes: Seq<bool>, stage: DbStage)
    requires
        outcomes.len() > 0,
    ensures
        passes(start, outcomes, start),
        passes(stage_after(start, outcomes[0]), outcomes.drop_first(), stage) ==> passes(start, outcomes, stage),
{
    let next = stages(stage_after(start, outcomes[0]), outcomes.drop_first());
    let all = stages(start, outcomes);
    assert(all[0] == start);
    if next.contains(stage) {
        let i = choose|i: int| 0 <= i < next.len() && next[i] == stage;
        assert(all[i + 1] == stage);
    }
}

/// Where a request fails over `e`, the stages that undo its work were passed, as
/// far as they were still to come.
proof fn lemma_failure_is_undone(start: DbStage, outcomes: Seq<bool>, e: DbError)
    requires
        stages(start, outcomes).last() == DbStage::Failed(e),
    ensures
        start is CreateDatabase && e != DbError::CreateDatabase ==> passes(
            start,
            outcomes,
            DbStage::UndoDatabase(e),
        ) && passes(start, outcomes, DbStage::UndoUser(e)),
        start is CreateUser || start is Grant ==> passes(start, outcomes, DbStage::UndoDatabase(e)) && passes(
            start,
            outcomes,
            DbStage::UndoUser(e),
        ),
        start matches DbStage::UndoDatabase(x) ==> x == e && passes(start, outcomes, start) && passes(
            start,
            outcomes,
            DbStage::UndoUser(e),
        ),
        start matches DbStage::UndoUser(x) ==> x == e && passes(start, outcomes, start),
        start matches DbStage::Failed(x) ==> x == e,
        !(start is Done) && !(start is Flush),
    decreases outcomes.len(),
{
    if outcomes.len() > 0 {
        let next = stage_after(start, outcomes[0]);
        assert(stages(next, outcomes.drop_first()).len() > 0);
        lemma_failure_is_undone(next, outcomes.drop_first(), e);
        lemma_passes_later(start, outcomes, DbStage::UndoDatabase(e));
        lemma_passes_later(start, outcomes, DbStage::UndoUser(e));
    } else {
        assert(stages(start, outcomes)[0] == start);
    }
}

/// A creation that fails once the database has been created leaves nothing
/// behind: it passes the statements that drop the database and the user before
/// the failure is reported.
pub proof fn law_half_made_database_is_undone(outcomes: Seq<bool>, e: DbError)
    requires
        stages(DbStage::CreateDatabase, outcomes).last() == DbStage::Failed(e),
        e != DbError::CreateDatabase,
    ensures
        passes(DbStage::CreateDatabase, outcomes, DbStage::UndoDatabase(e)),
        passes(DbStage::CreateDatabase, outcomes, DbStage::UndoUser(e)),
{
    lemma_failure_is_undone(DbStage::CreateDatabase, outcomes, e);
}

/// A creation is reported as done only if the database, the user and the grant
/// were all made, and then nothing is undone.
pub proof fn law_done_means_made(a: bool, b: bool, c: bool, d: bool)
    ensures
        stage_after(stage_after(stage_after(stage_after(DbStage::CreateDatabase, a), b), c), d) is Done <==> (a && b
            && c),
{
}

/// A name is fit for a statement exactly if it has between one byte and so many as
/// are allowed, and consists of letters and digits of ASCII and underscores.
pub proof fn law_fit_names(s: Seq<char>, max: usize)
    ensures
        ident_fault(s, max) is None <==> {
            &&& 1 <= vstd::utf8::encode_utf8(s).len() <= max
            &&& forall|i: int|
                0 <= i < s.len() ==> ('a' <= #[trigger] s[i] <= 'z' || 'A' <= s[i] <= 'Z' || '0' <= s[i] <= '9' || s[i]
                    == '_')
        },
        ident_fault(s, max) == Some(IdentError::Length(max)) <==> !(1 <= vstd::utf8::encode_utf8(s).len() <= max),
{
}

/// A database is asked for exactly where both names are fit: that of the database
/// with up to sixty-four bytes and that of the user with up to thirty-two. The name
/// of the database is looked at first.
pub proof fn law_both_names_are_checked(name: Seq<char>, user: Seq<char>)
    ensures
        names_fault(name, user) is None <==> ident_fault(name, 64) is None && ident_fault(user, 32) is None,
        ident_fault(name, 64) matches Some(e) ==> names_fault(name, user) == Some(DbError::InvalidName(e)),
        ident_fault(name, 64) is None ==> (ident_fault(user, 32) matches Some(e) ==> names_fault(name, user) == Some(
            DbError::InvalidUser(e),
        )),
{
}

/// Each statement is about the request's own database and its own user: creating
/// and dropping name the same database, what a user is created, granted to and
/// dropped as is the same, and the grant is on that database alone. What is there
/// already, or is not there any more, does no harm.
pub proof fn law_statements_are_about_their_request(
    name: Seq<char>,
    user: Seq<char>,
    password: Seq<char>,
    e: DbError,
)
    ensures
        ({
            let database = seq!['`'] + name + seq!['`'];
            let account = seq!['\''] + user + "'@'%'"@;
            &&& statement_text(DbStage::CreateDatabase, name, user, password) == Some(
                "CREATE DATABASE IF NOT EXISTS "@ + database,
            )
            &&& statement_text(DbStage::Grant, name, user, password) == Some(
                "GRANT ALL PRIVILEGES ON "@ + database + ".* TO "@ + account,
            )
            &&& statement_text(DbStage::DropDatabase, name, user, password) == Some(
                "DROP DATABASE IF EXISTS "@ + database,
            )
            &&& statement_text(DbStage::UndoDatabase(e), name, user, password) == statement_text(
                DbStage::DropDatabase,
                name,
                user,
                password,
            )
            &&& statement_text(DbStage::DropUser, name, user, password) == Some("DROP USER IF EXISTS "@ + account)
            &&& statement_text(DbStage::UndoUser(e), name, user, password) == statement_text(
                DbStage::DropUser,
                name,
                user,
                password,
            )
            &&& statement_text(DbStage::Flush, name, user, password) == Some("FLUSH PRIVILEGES"@)
            &&& statement_text(DbStage::Done, name, user, password) is None
            &&& statement_text(DbStage::Failed(e), name, user, password) is None
        }),
{
    reveal_strlit("CREATE DATABASE IF NOT EXISTS `");
    reveal_strlit("CREATE DATABASE IF NOT EXISTS ");
    reveal_strlit("`");
    reveal_strlit("GRANT ALL PRIVILEGES ON `");
    reveal_strlit("GRANT ALL PRIVILEGES ON ");
    reveal_strlit("`.* TO '");
    reveal_strlit(".* TO ");
    reveal_strlit("DROP DATABASE IF EXISTS `");
    reveal_strlit("DROP DATABASE IF EXISTS ");
    reveal_strlit("DROP USER IF EXISTS '");
    reveal_strlit("DROP USER IF EXISTS ");
    let database = seq!['`'] + name + seq!['`'];
    let account = seq!['\''] + user + "'@'%'"@;
    assert("CREATE DATABASE IF NOT EXISTS `"@ + name + "`"@ =~= "CREATE DATABASE IF NOT EXISTS "@ + database);
    assert("GRANT ALL PRIVILEGES ON `"@ + name + "`.* TO '"@ + user + "'@'%'"@ =~= "GRANT ALL PRIVILEGES ON "@
        + database + ".* TO "@ + account);
    assert("DROP DATABASE IF EXISTS `"@ + name + "`"@ =~= "DROP DATABASE IF EXISTS "@ + database);
    assert("DROP USER IF EXISTS '"@ + user + "'@'%'"@ =~= "DROP USER IF EXISTS "@ + account);
}

/// The user of a database is created with the whole password: what the server reads
/// out of the quotes behind `IDENTIFIED BY` is the password, whatever it holds, and
/// nothing follows.
pub proof fn law_user_gets_the_password(name: Seq<char>, user: Seq<char>, password: Seq<char>)
    ensures
        exists|quoted: Seq<char>|
            {
                &&& statement_text(DbStage::CreateUser, name, user, password) == Some(
                    #[trigger] ("CREATE USER IF NOT EXISTS '"@ + user + "'@'%' IDENTIFIED BY '"@ + quoted),
                )
                &&& read_quoted(quoted) == Some((password, Seq::<char>::empty()))
            },
{
    reveal_strlit("'");
    let quoted = escaped(password) + seq!['\''] + Seq::<char>::empty();
    law_escaped_text_reads_back(password, seq![]);
    let start = "CREATE USER IF NOT EXISTS '"@ + user + "'@'%' IDENTIFIED BY '"@;
    assert("'"@ =~= seq!['\'']);
    assert(start + escaped(password) + "'"@ =~= start + quoted);
}

/// Escaping changes quotes and backslashes alone: each gets one backslash before
/// it, and every other character stays as it is.
pub proof fn law_only_quotes_and_backslashes_are_escaped(s: Seq<char>, c: char)
    ensures
        escaped(Seq::<char>::empty()) == Seq::<char>::empty(),
        c == '\'' || c == '\\' ==> escaped(s.push(c)) == escaped(s).push('\\').push(c),
        c != '\'' && c != '\\' ==> escaped(s.push(c)) == escaped(s).push(c),
{
    assert(s.push(c).drop_last() =~= s);
    if c == '\'' || c == '\\' {
        assert(escaped(s.push(c)) =~= escaped(s).push('\\').push(c));
    } else {
        assert(escaped(s.push(c)) =~= escaped(s).push(c));
    }
}

/// A creation makes the database, then the user, then the grant, and tells of the
/// first of them that fails; a deletion fails only where the database cannot be
/// dropped, and goes on to the user otherwise.
pub proof fn law_requests_go_step_by_step(a: bool, b: bool, c: bool)
    ensures
        stage_after(DbStage::CreateDatabase, true) == DbStage::CreateUser,
        stage_after(DbStage::CreateUser, true) == DbStage::Grant,
        stage_after(DbStage::CreateDatabase, false) == DbStage::Failed(DbError::CreateDatabase),
        stage_after(stage_after(stage_after(DbStage::CreateUser, false), a), b) == DbStage::Failed(
            DbError::CreateUser,
        ),
        stage_after(stage_after(stage_after(DbStage::Grant, false), a), b) == DbStage::Failed(DbError::Grant),
        stage_after(stage_after(DbStage::Grant, true), a) == DbStage::Done,
        stage_after(DbStage::DropDatabase, false) == DbStage::Failed(DbError::DropDatabase),
        stage_after(DbStage::DropDatabase, true) == DbStage::DropUser,
        stage_after(stage_after(DbStage::DropUser, a), b) == DbStage::Done,
{
}

/// Whether a request is the beginning of a creation.
pub open spec fn begins_creation(
    request: DbRequest,
    name: Seq<char>,
    user: Seq<char>,
    password: Seq<char>,
) -> bool {
    &&& request.at() == DbStage::CreateDatabase
    &&& request.database() == name
    &&& request.owner() == user
    &&& request.secret() == password
}

/// Whether a request is the beginning of a deletion.
pub open spec fn begins_deletion(request: DbRequest, name: Seq<char>, user: Seq<char>) -> bool {
    &&& request.at() == DbStage::DropDatabase
    &&& request.database() == name
    &&& request.owner() == user
}

/// A creation begins by creating the database that was asked for, and its user is
/// then created under the name and with the password that were given.
pub proof fn law_creation_is_of_what_was_asked_for(
    request: DbRequest,
    name: Seq<char>,
    user: Seq<char>,
    password: Seq<char>,
)
    requires
        begins_creation(request, name, user, password),
    ensures
        statement_text(request.at(), request.database(), request.owner(), request.secret()) == Some(
            "CREATE DATABASE IF NOT EXISTS "@ + (seq!['`'] + name + seq!['`']),
        ),
        exists|quoted: Seq<char>|
            {
                &&& statement_text(
                    stage_after(request.at(), true),
                    request.database(),
                    request.owner(),
                    request.secret(),
                ) == Some(#[trigger] ("CREATE USER IF NOT EXISTS '"@ + user + "'@'%' IDENTIFIED BY '"@ + quoted))
                &&& read_quoted(quoted) == Some((password, Seq::<char>::empty()))
            },
{
    law_statements_are_about_their_request(name, user, password, DbError::Connect);
    law_user_gets_the_password(name, user, password);
}

/// A deletion begins by dropping the database that was asked for, and then drops
/// the user that was named.
pub proof fn law_deletion_is_of_what_was_asked_for(request: DbRequest, name: Seq<char>, user: Seq<char>)
    requires
        begins_deletion(request, name, user),
    ensures
        statement_text(request.at(), request.database(), request.owner(), request.secret()) == Some(
            "DROP DATABASE IF EXISTS "@ + (seq!['`'] + name + seq!['`']),
        ),
        statement_text(
            stage_after(request.at(), true),
            request.database(),
            request.owner(),
            request.secret(),
        ) == Some("DROP USER IF EXISTS "@ + (seq!['\''] + user + "'@'%'"@)),
{
    law_statements_are_about_their_request(name, user, request.secret(), DbError::Connect);
}

/// Requests that fail over different things are told in different words.
pub proof fn law_failures_are_told_apart(a: DbError, b: DbError)
    requires
        a.text() == b.text(),
    ensures
        a is InvalidName <==> b is InvalidName,
        a is InvalidUser <==> b is InvalidUser,
        !(a is InvalidName) && !(a is InvalidUser) ==> a == b,
{
    reveal_strlit("invalid database name");
    reveal_strlit("invalid database user");
    reveal_strlit("connect to MariaDB");
    reveal_strlit("create database");
    reveal_strlit("create user");
    reveal_strlit("grant privileges");
    reveal_strlit("drop database");
    assert("invalid database name"@[17] == 'n');
    assert("invalid database user"@[17] == 'u');
    assert("invalid database name"@ != "invalid database user"@);
    let (s, t) = (a.text(), b.text());
    assert(s.len() == t.len());
}

/// A name that is too long or empty is told how long it may be.
pub proof fn law_length_limit_is_told(a: usize, b: usize)
    ensures
        IdentError::Length(a).text() == "identifier length must be 1..="@ + text::decimal(a as nat),
        text::numeral(text::decimal(a as nat), 10) == Some(a as int),
        IdentError::Length(a).text() == IdentError::Length(b).text() <==> a == b,
        IdentError::Length(a).text() != IdentError::Characters.text(),
{
    let start = "identifier length must be 1..="@;
    reveal_strlit("identifier length must be 1..=");
    reveal_strlit("identifier may only contain [A-Za-z0-9_]");
    text::law_numeral_reads_back(a as nat, usize::MAX as int);
    text::law_numeral_reads_back(b as nat, usize::MAX as int);
    assert((start + text::decimal(a as nat)).skip(start.len() as int) =~= text::decimal(a as nat));
    assert((start + text::decimal(b as nat)).skip(start.len() as int) =~= text::decimal(b as nat));
    assert((start + text::decimal(a as nat))[11] == 'l');
    assert("identifier may only contain [A-Za-z0-9_]"@[11] == 'm');
}

} // verus!
