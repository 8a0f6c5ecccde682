//! A cluster record: a named remote host plus login credentials.

use vstd::prelude::*;

use crate::entry::Entry;
use crate::sshconfig::count_eq;
use crate::sshconfig::end_marker;
use crate::sshconfig::lemma_lines_concat;
use crate::sshconfig::lemma_lines_single;
use crate::sshconfig::lemma_publish_twice;
use crate::sshconfig::marker_free;
use crate::sshconfig::no_nl;
use crate::sshconfig::spec_lines;
use crate::sshconfig::spec_upsert;
use crate::sshconfig::start_marker;
use crate::sshconfig::wf_block;
use crate::strutil::contains_seq;
use crate::strutil::contains_sub;

verus! {

/// Why a cluster record is not valid for connection.
#[derive(Debug, PartialEq, Eq, Structural, Clone, Copy)]
pub enum ClusterError {
    EmptyName,
    EmptyHost,
    EmptyUser,
    EmptyIdentityFile,
    NoneExistingIdentityFile,
}

/// Why opening an authenticated session failed.
#[derive(Debug, PartialEq, Eq, Structural, Clone, Copy)]
pub enum ConnectionError {
    WrongHost,
    WrongUserOrIdentityFile,
}

/// How a session to a cluster authenticates.
#[derive(Debug, PartialEq, Eq, Structural, Clone, Copy)]
pub enum SessionType {
    IdentityFile,
    Passphrase,
    Password,
}

#[derive(Debug, PartialEq, Clone)]
pub struct Cluster {
    pub name: String,
    pub host: String,
    pub user: String,
    pub identity_file: String,
}

/// Relies on std::path::Path::exists: whether the path names an entry
/// on disk. Nothing is assumed of the result; what is on disk can
/// change between calls.
#[verifier::external_body]
fn path_exists(p: &str) -> bool {
    std::path::Path::new(p).exists()
}

/// The fields a connection needs, checked in order; `exists` stands
/// for whether the identity file is present on disk. `None` means the
/// record is valid for connection.
pub open spec fn spec_validate(
    name: Seq<char>,
    host: Seq<char>,
    user: Seq<char>,
    identity_file: Seq<char>,
    exists: bool,
) -> Option<ClusterError> {
    if name.len() == 0 {
        Some(ClusterError::EmptyName)
    } else if host.len() == 0 {
        Some(ClusterError::EmptyHost)
    } else if user.len() == 0 {
        Some(ClusterError::EmptyUser)
    } else if identity_file.len() == 0 {
        Some(ClusterError::EmptyIdentityFile)
    } else if !exists {
        Some(ClusterError::NoneExistingIdentityFile)
    } else {
        None
    }
}

impl Cluster {
    /// The record's fields, as mathematical values.
    pub open spec fn spec_fields_of(&self) -> Seq<Seq<char>> {
        seq![self.name@, self.host@, self.user@, self.identity_file@]
    }

    /// Validation with the identity file's presence given explicitly:
    /// the record is built exactly when every field is non-empty and
    /// the identity file is present.
    pub fn validated(
        name: &str,
        host: &str,
        user: &str,
        identity_file: &str,
        identity_file_exists: bool,
    ) -> (r: Result<Cluster, ClusterError>)
        ensures
            r is Err <==> spec_validate(
                name@,
                host@,
                user@,
                identity_file@,
                identity_file_exists,
            ) is Some,
            r matches Err(e) ==> spec_validate(
                name@,
                host@,
                user@,
                identity_file@,
                identity_file_exists,
            ) == Some(e),
            r matches Ok(c) ==> (c.name@ == name@ && c.host@ == host@ && c.user@ == user@
                && c.identity_file@ == identity_file@),
    {
        if name.unicode_len() == 0 {
            return Err(ClusterError::EmptyName);
        }
        if host.unicode_len() == 0 {
            return Err(ClusterError::EmptyHost);
        }
        if user.unicode_len() == 0 {
            return Err(ClusterError::EmptyUser);
        }
        if identity_file.unicode_len() == 0 {
            return Err(ClusterError::EmptyIdentityFile);
        }
        if !identity_file_exists {
            return Err(ClusterError::NoneExistingIdentityFile);
        }
        Ok(
            Cluster {
                name: name.to_owned(),
                host: host.to_owned(),
                user: user.to_owned(),
                identity_file: identity_file.to_owned(),
            },
        )
    }

    /// Build a record valid for connection, or say which check failed.
    /// Whether the identity file exists is read from disk, so with every
    /// field non-empty the outcome is either the record or
    /// `NoneExistingIdentityFile`.
    pub fn new(name: &str, host: &str, user: &str, identity_file: &str) -> (r: Result<
        Cluster,
        ClusterError,
    >)
        ensures
            r == Err::<Cluster, ClusterError>(ClusterError::EmptyName) <==> name@.len() == 0,
            r == Err::<Cluster, ClusterError>(ClusterError::EmptyHost) <==> (name@.len() > 0
                && host@.len() == 0),
            r == Err::<Cluster, ClusterError>(ClusterError::EmptyUser) <==> (name@.len() > 0
                && host@.len() > 0 && user@.len() == 0),
            r == Err::<Cluster, ClusterError>(ClusterError::EmptyIdentityFile) <==> (
            name@.len() > 0 && host@.len() > 0 && user@.len() > 0 && identity_file@.len() == 0),
            r matches Ok(c) ==> (c.name@ == name@ && c.host@ == host@ && c.user@ == user@
                && c.identity_file@ == identity_file@),
            (name@.len() > 0 && host@.len() > 0 && user@.len() > 0 && identity_file@.len() > 0)
                ==> (r is Ok || r == Err::<Cluster, ClusterError>(
                ClusterError::NoneExistingIdentityFile,
            )),
            r == Err::<Cluster, ClusterError>(ClusterError::NoneExistingIdentityFile) ==> (
            name@.len() > 0 && host@.len() > 0 && user@.len() > 0 && identity_file@.len() > 0),
    {
        let exists = path_exists(identity_file);
        Cluster::validated(name, host, user, identity_file, exists)
    }

    /// A record with every field empty.
    pub fn new_empty() -> (r: Cluster)
        ensures
            r.name@ == Seq::<char>::empty(),
            r.host@ == Seq::<char>::empty(),
            r.user@ == Seq::<char>::empty(),
            r.identity_file@ == Seq::<char>::empty(),
    {
        Cluster {
            name: String::new(),
            host: String::new(),
            user: String::new(),
            identity_file: String::new(),
        }
    }

    /// A record built directly from its fields, with no validation.
    pub fn from_fields(name: &str, host: &str, user: &str, identity_file: &str) -> (r: Cluster)
        ensures
            r.name@ == name@,
            r.host@ == host@,
            r.user@ == user@,
            r.identity_file@ == identity_file@,
    {
        Cluster {
            name: name.to_owned(),
            host: host.to_owned(),
            user: user.to_owned(),
            identity_file: identity_file.to_owned(),
        }
    }

    /// Check the stored record the same way `new` checks its inputs.
    pub fn cluster_is_valid(&self) -> (r: Result<(), ClusterError>)
        ensures
            r is Ok ==> (self.name@.len() > 0 && self.host@.len() > 0 && self.user@.len() > 0
                && self.identity_file@.len() > 0),
            (self.name@.len() > 0 && self.host@.len() > 0 && self.user@.len() > 0
                && self.identity_file@.len() > 0) ==> (r is Ok || r == Err::<(), ClusterError>(
                ClusterError::NoneExistingIdentityFile,
            )),
            self.name@.len() == 0 <==> r == Err::<(), ClusterError>(ClusterError::EmptyName),
            (self.name@.len() > 0 && self.host@.len() == 0) <==> r == Err::<(), ClusterError>(
                ClusterError::EmptyHost,
            ),
            (self.name@.len() > 0 && self.host@.len() > 0 && self.user@.len() == 0) <==> r
                == Err::<(), ClusterError>(ClusterError::EmptyUser),
            (self.name@.len() > 0 && self.host@.len() > 0 && self.user@.len() > 0
                && self.identity_file@.len() == 0) <==> r == Err::<(), ClusterError>(
                ClusterError::EmptyIdentityFile,
            ),
    {
        match Cluster::validated(
            self.name.as_str(),
            self.host.as_str(),
            self.user.as_str(),
            self.identity_file.as_str(),
            path_exists(self.identity_file.as_str()),
        ) {
            Ok(_) => Ok(()),
            Err(e) => Err(e),
        }
    }

    /// The jump-host block this record publishes to the SSH client
    /// configuration, delimited by its marker comments.
    pub open spec fn spec_config_entry(&self) -> Seq<char> {
        "# code-remote: start "@ + self.name@ + "\n"@ + "Host cr-"@ + self.name@ + "\n"@
            + "    HostName "@ + self.host@ + "\n"@ + "    User "@ + self.user@ + "\n"@ + (
        if self.identity_file@.len() > 0 {
            "    IdentityFile "@ + self.identity_file@ + "\n"@
        } else {
            Seq::<char>::empty()
        }) + "# code-remote: end "@ + self.name@
    }

    /// Render the record's SSH-config block.
    pub fn format_config_entry(&self) -> (r: String)
        ensures
            r@ == self.spec_config_entry(),
    {
        let mut entry = String::new();
        entry.append("# code-remote: start ");
        entry.append(self.name.as_str());
        entry.append("\n");
        entry.append("Host cr-");
        entry.append(self.name.as_str());
        entry.append("\n");
        entry.append("    HostName ");
        entry.append(self.host.as_str());
        entry.append("\n");
        entry.append("    User ");
        entry.append(self.user.as_str());
        entry.append("\n");
        if self.identity_file.unicode_len() > 0 {
            entry.append("    IdentityFile ");
            entry.append(self.identity_file.as_str());
            entry.append("\n");
        }
        entry.append("# code-remote: end ");
        entry.append(self.name.as_str());
        proof {
            assert(entry@ =~= self.spec_config_entry());
        }
        entry
    }

    /// Publish this record's jump-host block into the configuration
    /// text: any block already published under the record's name is
    /// removed first, then the fresh block is appended.
    pub fn add_cluster_to_ssh_config(&self, config: &str) -> (r: String)
        ensures
            r@ == crate::sshconfig::spec_upsert(config@, self.name@, self.spec_config_entry()),
    {
        let entry = self.format_config_entry();
        crate::sshconfig::upsert_config_block(config, self.name.as_str(), entry.as_str())
    }

    /// Add `entry` to the configuration text unless it is already
    /// present; the text with the entry is returned.
    pub fn append_ssh_config(&self, config: &str, entry: &str) -> (r: String)
        ensures
            contains_seq(config@, entry@) ==> r@ == config@,
            !contains_seq(config@, entry@) ==> r@ == config@ + "\n"@ + entry@ + "\n"@,
    {
        if contains_sub(config, entry) {
            config.to_owned()
        } else {
            let mut r = config.to_owned();
            r.append("\n");
            r.append(entry);
            r.append("\n");
            r
        }
    }
}

impl Entry for Cluster {
    open spec fn spec_field_count() -> nat {
        4
    }

    open spec fn spec_fields(&self) -> Seq<Seq<char>> {
        self.spec_fields_of()
    }

    open spec fn spec_default_fields() -> Seq<Seq<char>> {
        seq![
            Seq::<char>::empty(),
            Seq::<char>::empty(),
            Seq::<char>::empty(),
            Seq::<char>::empty(),
        ]
    }

    open spec fn spec_labels() -> Seq<Seq<char>> {
        seq!["Name: "@, "Host: "@, "User: "@, "IdentityFile: "@]
    }

    proof fn lemma_field_count_bounds() {
    }

    proof fn lemma_labels_len() {
    }

    proof fn lemma_fields_len(&self) {
    }

    proof fn lemma_default_fields_len() {
    }

    fn field_count() -> (r: usize) {
        4
    }

    fn clone_entry(&self) -> (r: Self) {
        let r = Cluster {
            name: self.name.clone(),
            host: self.host.clone(),
            user: self.user.clone(),
            identity_file: self.identity_file.clone(),
        };
        proof {
            assert(r.spec_fields() =~= self.spec_fields());
        }
        r
    }

    fn default_entry() -> (r: Self) {
        let r = Cluster::new_empty();
        proof {
            assert(r.spec_fields() =~= Self::spec_default_fields());
        }
        r
    }

    fn get_entry_name(&self) -> (r: String) {
        self.name.clone()
    }

    fn set_entry_name(&mut self, name: &str) {
        self.name = name.to_owned();
        proof {
            assert(self.spec_fields() =~= old(self).spec_fields().update(0, name@));
        }
    }

    fn get_value_from_index(&self, index: usize) -> (r: String) {
        match index {
            0 => self.name.clone(),
            1 => self.host.clone(),
            2 => self.user.clone(),
            3 => self.identity_file.clone(),
            _ => String::new(),
        }
    }

    fn set_value_from_index(&mut self, index: usize, value: &str) {
        match index {
            0 => {
                self.name = value.to_owned();
            },
            1 => {
                self.host = value.to_owned();
            },
            2 => {
                self.user = value.to_owned();
            },
            3 => {
                self.identity_file = value.to_owned();
            },
            _ => {},
        }
        proof {
            if (index as nat) < Self::spec_field_count() {
                assert(self.spec_fields() =~= old(self).spec_fields().update(
                    index as int,
                    value@,
                ));
            } else {
                assert(self.spec_fields() =~= old(self).spec_fields());
            }
        }
    }

    fn get_entry_names(&self) -> (r: Vec<String>) {
        let mut r: Vec<String> = Vec::new();
        r.push("Name: ".to_owned());
        r.push("Host: ".to_owned());
        r.push("User: ".to_owned());
        r.push("IdentityFile: ".to_owned());
        proof {
            assert(r@.map_values(|l: String| l@) =~= Self::spec_labels());
        }
        r
    }

    fn get_entry_values(&self) -> (r: Vec<String>) {
        let mut r: Vec<String> = Vec::new();
        r.push(self.name.clone());
        r.push(self.host.clone());
        r.push(self.user.clone());
        r.push(self.identity_file.clone());
        r
    }

    fn from_values(values: &Vec<String>) -> (r: Self) {
        Cluster {
            name: values[0].clone(),
            host: values[1].clone(),
            user: values[2].clone(),
            identity_file: values[3].clone(),
        }
    }
}

/// A cluster's rendered SSH-config block is a well-formed published
/// block for the cluster's name, as long as no field involved carries
/// a line break.
#[verifier::rlimit(100)]
pub proof fn lemma_cluster_entry_wf_block(c: &Cluster)
    requires
        no_nl(c.name@),
        no_nl(c.host@),
        no_nl(c.user@),
        no_nl(c.identity_file@),
    ensures
        wf_block(c.name@, spec_lines(c.spec_config_entry())),
{
    reveal_strlit("# code-remote: start ");
    reveal_strlit("# code-remote: end ");
    reveal_strlit("Host cr-");
    reveal_strlit("    HostName ");
    reveal_strlit("    User ");
    reveal_strlit("    IdentityFile ");
    reveal_strlit("\n");
    let nm = c.name@;
    let nl = seq!['\n'];
    assert("\n"@ =~= nl);
    let l1 = start_marker(nm);
    let l2 = "Host cr-"@ + nm;
    let l3 = "    HostName "@ + c.host@;
    let l4 = "    User "@ + c.user@;
    let l5 = "    IdentityFile "@ + c.identity_file@;
    let l7 = end_marker(nm);
    assert(no_nl(l1) && no_nl(l2) && no_nl(l3) && no_nl(l4) && no_nl(l5) && no_nl(l7));
    lemma_lines_single(l7);
    let t5 = if c.identity_file@.len() > 0 {
        l5 + nl + l7
    } else {
        l7
    };
    if c.identity_file@.len() > 0 {
        lemma_lines_concat(l5, l7);
        assert(spec_lines(t5) =~= seq![l5] + seq![l7]);
    }
    let t4 = l4 + nl + t5;
    lemma_lines_concat(l4, t5);
    let t3 = l3 + nl + t4;
    lemma_lines_concat(l3, t4);
    let t2 = l2 + nl + t3;
    lemma_lines_concat(l2, t3);
    let t1 = l1 + nl + t2;
    lemma_lines_concat(l1, t2);
    assert(c.spec_config_entry() =~= t1);
    let ls = spec_lines(c.spec_config_entry());
    if c.identity_file@.len() > 0 {
        assert(ls =~= seq![l1, l2, l3, l4, l5, l7]);
    } else {
        assert(ls =~= seq![l1, l2, l3, l4, l7]);
    }
    assert(l1.len() == 21 + nm.len());
    assert(l7.len() == 19 + nm.len());
    assert(l2[0] == 'H' && l3[0] == ' ' && l4[0] == ' ' && l5[0] == ' ');
    assert(start_marker(nm)[0] == '#' && end_marker(nm)[0] == '#');
}

/// Publishing a cluster's block twice in a row leaves the
/// configuration exactly as one publish leaves it, with exactly one
/// start marker of the cluster's name.
pub proof fn lemma_publish_cluster_twice(cfg: Seq<char>, c1: &Cluster, c2: &Cluster)
    requires
        c1.name@ == c2.name@,
        marker_free(spec_lines(cfg), c1.name@),
        no_nl(c1.name@),
        no_nl(c1.host@),
        no_nl(c1.user@),
        no_nl(c1.identity_file@),
        no_nl(c2.host@),
        no_nl(c2.user@),
        no_nl(c2.identity_file@),
    ensures
        spec_upsert(
            spec_upsert(cfg, c1.name@, c1.spec_config_entry()),
            c2.name@,
            c2.spec_config_entry(),
        ) == spec_upsert(cfg, c2.name@, c2.spec_config_entry()),
        count_eq(
            spec_lines(
                spec_upsert(
                    spec_upsert(cfg, c1.name@, c1.spec_config_entry()),
                    c2.name@,
                    c2.spec_config_entry(),
                ),
            ),
            start_marker(c2.name@),
        ) == 1,
{
    lemma_cluster_entry_wf_block(c1);
    lemma_cluster_entry_wf_block(c2);
    lemma_publish_twice(cfg, c1.name@, c1.spec_config_entry(), c2.spec_config_entry());
}

} // verus!
