use vstd::prelude::*;

verus! {

/// The character views of a sequence of strings.
pub open spec fn strings_view(v: Seq<String>) -> Seq<Seq<char>> {
    v.map_values(|s: String| s@)
}

/// Settings read from the configuration file.
pub struct Config {
    pub ssh: SshConfig,
}

/// The credential source: candidate keys, ports and users, each in the
/// order in which they are to be tried.
pub struct SshConfig {
    pub certs: Vec<String>,
    pub ports: Vec<u16>,
    pub users: Vec<String>,
}

/// Mathematical model of an [`SshConfig`].
pub struct SshConfigView {
    pub certs: Seq<Seq<char>>,
    pub ports: Seq<u16>,
    pub users: Seq<Seq<char>>,
}

impl View for SshConfig {
    type V = SshConfigView;

    open spec fn view(&self) -> SshConfigView {
        SshConfigView {
            certs: strings_view(self.certs@),
            ports: self.ports@,
            users: strings_view(self.users@),
        }
    }
}

/// One fully specified candidate: where to connect, as whom, with which key.
pub struct ConnectionInfo {
    pub host: String,
    pub port: u16,
    pub username: String,
    pub private_key: String,
}

/// Mathematical model of a [`ConnectionInfo`].
pub struct ConnectionInfoView {
    pub host: Seq<char>,
    pub port: u16,
    pub username: Seq<char>,
    pub private_key: Seq<char>,
}

impl View for ConnectionInfo {
    type V = ConnectionInfoView;

    open spec fn view(&self) -> ConnectionInfoView {
        ConnectionInfoView {
            host: self.host@,
            port: self.port,
            username: self.username@,
            private_key: self.private_key@,
        }
    }
}

/// Users tried when the configuration is first written and no list is given.
pub const DEFAULT_USERS: &'static str = "ubuntu,ec2-user,admin";

/// Port tried when the configuration is first written.
pub const DEFAULT_PORT: u16 = 22;

/// File name of the configuration under the user's `.config` directory.
pub const CONFIG_FILE_NAME: &'static str = "rust-ssh-connect.toml";

/// What `str::trim` gives for `s`.
pub uninterp spec fn trimmed(s: Seq<char>) -> Seq<char>;

/// Relies on `str::trim`: `s` without leading and trailing whitespace.
#[verifier::external_body]
fn trim_str(s: &str) -> (r: String)
    ensures
        r@ == trimmed(s@),
{
    s.trim().to_string()
}

/// The pieces of `s` between occurrences of `sep`, in order; there is always
/// one more piece than there are separators.
pub open spec fn split_on(s: Seq<char>, sep: char) -> Seq<Seq<char>>
    decreases s.len(),
{
    if s.len() == 0 {
        seq![seq![]]
    } else {
        let p = split_on(s.drop_last(), sep);
        if s.last() == sep {
            p.push(seq![])
        } else {
            p.update(p.len() - 1, p.last().push(s.last()))
        }
    }
}

proof fn lemma_split_on_nonempty(s: Seq<char>, sep: char)
    ensures
        split_on(s, sep).len() >= 1,
    decreases s.len(),
{
    if s.len() > 0 {
        lemma_split_on_nonempty(s.drop_last(), sep);
    }
}

/// The pieces of `s` between occurrences of `sep`.
pub fn split_fields(s: &str, sep: char) -> (r: Vec<String>)
    ensures
        strings_view(r@) == split_on(s@, sep),
{
    let n = s.unicode_len();
    let mut fields: Vec<String> = Vec::new();
    let mut start: usize = 0;
    let mut i: usize = 0;
    proof {
        assert(s@.take(0).len() == 0);
        assert(s@.subrange(0, 0) =~= seq![]);
        assert(strings_view(fields@) =~= seq![]);
        assert(split_on(s@.take(0), sep) =~= strings_view(fields@).push(s@.subrange(0, 0)));
    }
    while i < n
        invariant
            n == s@.len(),
            start <= i <= n,
            split_on(s@.take(i as int), sep) == strings_view(fields@).push(
                s@.subrange(start as int, i as int),
            ),
        decreases n - i,
    {
        let ghost before = fields@;
        let c = s.get_char(i);
        proof {
            assert(s@.take(i + 1).drop_last() =~= s@.take(i as int));
            lemma_split_on_nonempty(s@.take(i as int), sep);
            assert(s@.take(i + 1).last() == c);
        }
        let ghost p = split_on(s@.take(i as int), sep);
        if c == sep {
            fields.push(s.substring_char(start, i).to_owned());
            assert(strings_view(fields@) =~= strings_view(before).push(
                s@.subrange(start as int, i as int),
            ));
            start = i + 1;
            assert(split_on(s@.take(i + 1), sep) == p.push(seq![]));
            assert(s@.subrange(start as int, i + 1) =~= seq![]);
        } else {
            assert(split_on(s@.take(i + 1), sep) == p.update(p.len() - 1, p.last().push(c)));
            assert(s@.subrange(start as int, i + 1) =~= s@.subrange(start as int, i as int).push(
                c,
            ));
            assert(p.last() == s@.subrange(start as int, i as int));
        }
        assert(split_on(s@.take(i + 1), sep) =~= strings_view(fields@).push(
            s@.subrange(start as int, i + 1),
        ));
        i = i + 1;
    }
    let ghost before = fields@;
    fields.push(s.substring_char(start, n).to_owned());
    assert(strings_view(fields@) =~= strings_view(before).push(s@.subrange(start as int, n as int)));
    assert(s@.take(n as int) =~= s@);
    fields
}

/// A comma-separated list of user names, each name trimmed of surrounding whitespace.
pub open spec fn user_list(s: Seq<char>) -> Seq<Seq<char>> {
    split_on(s, ',').map_values(|f: Seq<char>| trimmed(f))
}

/// Reads a comma-separated list of user names.
pub fn parse_user_list(s: &str) -> (r: Vec<String>)
    ensures
        strings_view(r@) == user_list(s@),
{
    let fields = split_fields(s, ',');
    let mut r: Vec<String> = Vec::new();
    let mut j: usize = 0;
    while j < fields.len()
        invariant
            j <= fields@.len(),
            strings_view(r@) =~= strings_view(fields@).take(j as int).map_values(
                |f: Seq<char>| trimmed(f),
            ),
        decreases fields@.len() - j,
    {
        let ghost before = r@;
        r.push(trim_str(fields[j].as_str()));
        assert(strings_view(r@) =~= strings_view(before).push(trimmed(fields@[j as int]@)));
        assert(strings_view(fields@).take(j + 1) =~= strings_view(fields@).take(j as int).push(
            fields@[j as int]@,
        ));
        j = j + 1;
    }
    assert(strings_view(fields@).take(fields@.len() as int) =~= strings_view(fields@));
    r
}

/// The configuration written on first use: the keys found, the default
/// port, and the users from `users_setting`, or the default users when none is given.
pub fn default_config(keys: Vec<String>, users_setting: Option<&str>) -> (r: Config)
    ensures
        r.ssh@.certs == strings_view(keys@),
        r.ssh@.ports == seq![DEFAULT_PORT],
        r.ssh@.users == user_list(
            match users_setting {
                Some(u) => u@,
                None => DEFAULT_USERS@,
            },
        ),
{
    let users = match users_setting {
        Some(u) => parse_user_list(u),
        None => parse_user_list(DEFAULT_USERS),
    };
    let ports = vec![DEFAULT_PORT];
    assert(ports@ =~= seq![DEFAULT_PORT]);
    Config { ssh: SshConfig { certs: keys, ports, users } }
}

/// The name ends in `.pub`, as public halves of key pairs do.
pub open spec fn is_public_key_name(p: Seq<char>) -> bool {
    p.len() >= 4 && p.subrange(p.len() - 4, p.len() as int) == ".pub"@
}

/// Whether `p` ends in `.pub`.
pub fn has_pub_suffix(p: &str) -> (r: bool)
    ensures
        r == is_public_key_name(p@),
{
    proof {
        reveal_strlit(".pub");
    }
    let suffix = ".pub";
    let n = p.unicode_len();
    if n < 4 {
        return false;
    }
    let mut j: usize = 0;
    while j < 4
        invariant
            n == p@.len(),
            n >= 4,
            suffix@ == ".pub"@,
            suffix@.len() == 4,
            j <= 4,
            forall|t: int| 0 <= t < j ==> p@[n - 4 + t] == suffix@[t],
        decreases 4 - j,
    {
        if p.get_char(n - 4 + j) != suffix.get_char(j) {
            assert(p@.subrange(n - 4, n as int)[j as int] != suffix@[j as int]);
            return false;
        }
        j = j + 1;
    }
    assert(p@.subrange(n - 4, n as int) =~= suffix@);
    true
}

/// The models of directory entries: a path, and whether it is a regular file.
pub open spec fn entries_view(v: Seq<(String, bool)>) -> Seq<(Seq<char>, bool)> {
    v.map_values(|e: (String, bool)| (e.0@, e.1))
}

/// The private keys among directory entries: the regular files whose names
/// do not end in `.pub`, in the order given.
pub open spec fn private_keys(entries: Seq<(Seq<char>, bool)>) -> Seq<Seq<char>>
    decreases entries.len(),
{
    if entries.len() == 0 {
        seq![]
    } else {
        let rest = private_keys(entries.drop_last());
        let e = entries.last();
        if e.1 && !is_public_key_name(e.0) {
            rest.push(e.0)
        } else {
            rest
        }
    }
}

/// Picks the private keys out of the entries of a key directory.
pub fn select_private_keys(entries: &Vec<(String, bool)>) -> (r: Vec<String>)
    ensures
        strings_view(r@) == private_keys(entries_view(entries@)),
{
    let mut keys: Vec<String> = Vec::new();
    let mut i: usize = 0;
    while i < entries.len()
        invariant
            i <= entries@.len(),
            strings_view(keys@) == private_keys(entries_view(entries@).take(i as int)),
        decreases entries@.len() - i,
    {
        let ghost before = keys@;
        proof {
            assert(entries_view(entries@).take(i + 1).drop_last() =~= entries_view(entries@).take(
                i as int,
            ));
        }
        if entries[i].1 && !has_pub_suffix(entries[i].0.as_str()) {
            keys.push(entries[i].0.clone());
            assert(strings_view(keys@) =~= strings_view(before).push(entries@[i as int].0@));
        }
        i = i + 1;
    }
    assert(entries_view(entries@).take(entries@.len() as int) =~= entries_view(entries@));
    keys
}

/// The model of an optional string.
pub open spec fn opt_view(o: Option<String>) -> Option<Seq<char>> {
    match o {
        Some(s) => Some(s@),
        None => None,
    }
}

/// Where the configuration lives: `path_override` when given, else
/// `.config/rust-ssh-connect.toml` under `home`; nothing when neither is known.
pub open spec fn config_path_spec(path_override: Option<Seq<char>>, home: Option<Seq<char>>) -> Option<
    Seq<char>,
> {
    match path_override {
        Some(p) => Some(p),
        None => match home {
            Some(h) => Some(h + "/.config/"@ + CONFIG_FILE_NAME@),
            None => None,
        },
    }
}

/// Where the configuration lives.
pub fn config_path(path_override: Option<String>, home: Option<String>) -> (r: Option<String>)
    ensures
        opt_view(r) == config_path_spec(opt_view(path_override), opt_view(home)),
{
    match path_override {
        Some(p) => Some(p),
        None => match home {
            Some(h) => {
                let mut r = h;
                r.append("/.config/");
                r.append(CONFIG_FILE_NAME);
                Some(r)
            },
            None => None,
        },
    }
}

/// The log level: `debug` when verbose, else `error` when quiet, else `info`.
pub fn log_level(verbose: bool, quiet: bool) -> (r: &'static str)
    ensures
        r@ == (if verbose {
            "debug"@
        } else if quiet {
            "error"@
        } else {
            "info"@
        }),
{
    if verbose {
        "debug"
    } else if quiet {
        "error"
    } else {
        "info"
    }
}

} // verus!
