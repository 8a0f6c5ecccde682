//! A job preset: a named template of scheduler-submission parameters
//! scoped to one cluster.

use vstd::prelude::*;

use crate::cluster::Cluster;
use crate::entry::Entry;
use crate::sshconfig::count_eq;
use crate::sshconfig::end_marker;
use crate::sshconfig::lemma_lines_concat;
use crate::sshconfig::lemma_lines_single;
use crate::sshconfig::lemma_publish_twice;
use crate::sshconfig::marker_free;
use crate::sshconfig::no_nl;
use crate::sshconfig::spec_lines;
use crate::sshconfig::spec_upsert;
use crate::sshconfig::start_marker;
use crate::sshconfig::wf_block;

verus! {

#[derive(Debug, PartialEq, Clone)]
pub struct Spawner {
    pub preset_name: String,
    pub account: String,
    pub partition: String,
    pub time: String,
    pub working_directory: String,
    pub other_options: String,
}

impl Spawner {
    /// The record's fields, as mathematical values.
    pub open spec fn spec_fields_of(&self) -> Seq<Seq<char>> {
        seq![
            self.preset_name@,
            self.account@,
            self.partition@,
            self.time@,
            self.working_directory@,
            self.other_options@,
        ]
    }

    pub fn new(
        preset_name: &str,
        account: &str,
        partition: &str,
        time: &str,
        working_directory: &str,
        other_options: &str,
    ) -> (r: Spawner)
        ensures
            r.preset_name@ == preset_name@,
            r.account@ == account@,
            r.partition@ == partition@,
            r.time@ == time@,
            r.working_directory@ == working_directory@,
            r.other_options@ == other_options@,
    {
        Spawner {
            preset_name: preset_name.to_owned(),
            account: account.to_owned(),
            partition: partition.to_owned(),
            time: time.to_owned(),
            working_directory: working_directory.to_owned(),
            other_options: other_options.to_owned(),
        }
    }

    /// The scheduler submit command this preset stands for: each field
    /// is appended with its flag only when it is non-empty, and the
    /// command releases the shell once the allocation is granted.
    pub open spec fn spec_spawn_command(&self) -> Seq<char> {
        "salloc"@ + (if self.preset_name@.len() > 0 {
            " --job-name="@ + self.preset_name@
        } else {
            Seq::<char>::empty()
        }) + (if self.account@.len() > 0 {
            " -A "@ + self.account@
        } else {
            Seq::<char>::empty()
        }) + (if self.partition@.len() > 0 {
            " -p "@ + self.partition@
        } else {
            Seq::<char>::empty()
        }) + (if self.time@.len() > 0 {
            " -t "@ + self.time@
        } else {
            Seq::<char>::empty()
        }) + (if self.other_options@.len() > 0 {
            " "@ + self.other_options@
        } else {
            Seq::<char>::empty()
        }) + " --no-shell; exit"@
    }

    /// Build the scheduler submit command.
    #[verifier::rlimit(100)]
    pub fn get_spawn_command(&self) -> (r: String)
        ensures
            r@ == self.spec_spawn_command(),
    {
        let mut command = String::new();
        command.append("salloc");
        if self.preset_name.unicode_len() > 0 {
            command.append(" --job-name=");
            command.append(self.preset_name.as_str());
        }
        if self.account.unicode_len() > 0 {
            command.append(" -A ");
            command.append(self.account.as_str());
        }
        if self.partition.unicode_len() > 0 {
            command.append(" -p ");
            command.append(self.partition.as_str());
        }
        if self.time.unicode_len() > 0 {
            command.append(" -t ");
            command.append(self.time.as_str());
        }
        if self.other_options.unicode_len() > 0 {
            command.append(" ");
            command.append(self.other_options.as_str());
        }
        command.append(" --no-shell; exit");
        proof {
            assert(command@ =~= self.spec_spawn_command());
        }
        command
    }

    /// The jump-host block that routes the preset's alias through the
    /// owning cluster to the allocated node, delimited by the preset's
    /// marker comments.
    pub open spec fn spec_config_entry(&self, node_name: Seq<char>, cluster: &Cluster) -> Seq<
        char,
    > {
        "# code-remote: start "@ + self.preset_name@ + "\n"@ + "Host cr-"@ + self.preset_name@
            + "\n"@ + "    HostName "@ + node_name + "\n"@ + "    User "@ + cluster.user@ + "\n"@
            + (if cluster.identity_file@.len() > 0 {
            "    IdentityFile "@ + cluster.identity_file@ + "\n"@
        } else {
            Seq::<char>::empty()
        }) + "    ProxyJump cr-"@ + cluster.name@ + "\n"@ + "# code-remote: end "@
            + self.preset_name@
    }

    /// Render the preset's SSH-config block for the allocated node.
    #[verifier::rlimit(100)]
    pub fn format_config_entry(&self, node_name: &str, cluster: &Cluster) -> (r: String)
        ensures
            r@ == self.spec_config_entry(node_name@, cluster),
    {
        let mut entry = String::new();
        entry.append("# code-remote: start ");
        entry.append(self.preset_name.as_str());
        entry.append("\n");
        entry.append("Host cr-");
        entry.append(self.preset_name.as_str());
        entry.append("\n");
        entry.append("    HostName ");
        entry.append(node_name);
        entry.append("\n");
        entry.append("    User ");
        entry.append(cluster.user.as_str());
        entry.append("\n");
        if cluster.identity_file.unicode_len() > 0 {
            entry.append("    IdentityFile ");
            entry.append(cluster.identity_file.as_str());
            entry.append("\n");
        }
        entry.append("    ProxyJump cr-");
        entry.append(cluster.name.as_str());
        entry.append("\n");
        entry.append("# code-remote: end ");
        entry.append(self.preset_name.as_str());
        proof {
            assert(entry@ =~= self.spec_config_entry(node_name@, cluster));
        }
        entry
    }

    /// Publish the preset's jump-host block into the configuration
    /// text: any block already published under the preset's name is
    /// removed first, then the fresh block is appended.
    pub fn add_cluster_to_ssh_config(&self, config: &str, node_name: &str, cluster: &Cluster) -> (r:
        String)
        ensures
            r@ == crate::sshconfig::spec_upsert(
                config@,
                self.preset_name@,
                self.spec_config_entry(node_name@, cluster),
            ),
    {
        let entry = self.format_config_entry(node_name, cluster);
        crate::sshconfig::upsert_config_block(config, self.preset_name.as_str(), entry.as_str())
    }
}

/// A preset's rendered SSH-config block is a well-formed published
/// block for the preset's name, as long as no field involved carries a
/// line break.
#[verifier::rlimit(100)]
pub proof fn lemma_config_entry_wf_block(s: &Spawner, node: Seq<char>, c: &Cluster)
    requires
        no_nl(s.preset_name@),
        no_nl(node),
        no_nl(c.user@),
        no_nl(c.identity_file@),
        no_nl(c.name@),
    ensures
        wf_block(s.preset_name@, spec_lines(s.spec_config_entry(node, c))),
{
    reveal_strlit("# code-remote: start ");
    reveal_strlit("# code-remote: end ");
    reveal_strlit("Host cr-");
    reveal_strlit("    HostName ");
    reveal_strlit("    User ");
    reveal_strlit("    IdentityFile ");
    reveal_strlit("    ProxyJump cr-");
    reveal_strlit("\n");
    let p = s.preset_name@;
    let nl = seq!['\n'];
    assert("\n"@ =~= nl);
    let l1 = start_marker(p);
    let l2 = "Host cr-"@ + p;
    let l3 = "    HostName "@ + node;
    let l4 = "    User "@ + c.user@;
    let l5 = "    IdentityFile "@ + c.identity_file@;
    let l6 = "    ProxyJump cr-"@ + c.name@;
    let l7 = end_marker(p);
    assert(no_nl(l1) && no_nl(l2) && no_nl(l3) && no_nl(l4) && no_nl(l5) && no_nl(l6) && no_nl(
        l7,
    ));
    let t6 = l6 + nl + l7;
    lemma_lines_single(l7);
    lemma_lines_concat(l6, l7);
    assert(spec_lines(t6) == seq![l6, l7]) by {
        assert(seq![l6] + seq![l7] =~= seq![l6, l7]);
    }
    let t5 = if c.identity_file@.len() > 0 {
        l5 + nl + t6
    } else {
        t6
    };
    if c.identity_file@.len() > 0 {
        lemma_lines_concat(l5, t6);
        assert(spec_lines(t5) =~= seq![l5] + seq![l6, l7]);
    }
    let t4 = l4 + nl + t5;
    lemma_lines_concat(l4, t5);
    let t3 = l3 + nl + t4;
    lemma_lines_concat(l3, t4);
    let t2 = l2 + nl + t3;
    lemma_lines_concat(l2, t3);
    let t1 = l1 + nl + t2;
    lemma_lines_concat(l1, t2);
    assert(s.spec_config_entry(node, c) =~= t1);
    let ls = spec_lines(s.spec_config_entry(node, c));
    if c.identity_file@.len() > 0 {
        assert(ls =~= seq![l1, l2, l3, l4, l5, l6, l7]);
    } else {
        assert(ls =~= seq![l1, l2, l3, l4, l6, l7]);
    }
    assert(l1.len() == 21 + p.len());
    assert(l7.len() == 19 + p.len());
    assert(l2[0] == 'H' && l3[0] == ' ' && l4[0] == ' ' && l5[0] == ' ' && l6[0] == ' ');
    assert(start_marker(p)[0] == '#' && end_marker(p)[0] == '#');
}

/// Publishing a preset's route block twice in a row leaves the
/// configuration exactly as one publish of the second block leaves
/// it, with exactly one start marker of the preset's name: the second
/// publish's field values win and no copies pile up.
pub proof fn lemma_publish_preset_twice(
    cfg: Seq<char>,
    s: &Spawner,
    node1: Seq<char>,
    node2: Seq<char>,
    c: &Cluster,
)
    requires
        marker_free(spec_lines(cfg), s.preset_name@),
        no_nl(s.preset_name@),
        no_nl(node1),
        no_nl(node2),
        no_nl(c.user@),
        no_nl(c.identity_file@),
        no_nl(c.name@),
    ensures
        spec_upsert(
            spec_upsert(cfg, s.preset_name@, s.spec_config_entry(node1, c)),
            s.preset_name@,
            s.spec_config_entry(node2, c),
        ) == spec_upsert(cfg, s.preset_name@, s.spec_config_entry(node2, c)),
        count_eq(
            spec_lines(
                spec_upsert(
                    spec_upsert(cfg, s.preset_name@, s.spec_config_entry(node1, c)),
                    s.preset_name@,
                    s.spec_config_entry(node2, c),
                ),
            ),
            start_marker(s.preset_name@),
        ) == 1,
{
    lemma_config_entry_wf_block(s, node1, c);
    lemma_config_entry_wf_block(s, node2, c);
    lemma_publish_twice(
        cfg,
        s.preset_name@,
        s.spec_config_entry(node1, c),
        s.spec_config_entry(node2, c),
    );
}

impl Entry for Spawner {
    open spec fn spec_field_count() -> nat {
        6
    }

    open spec fn spec_fields(&self) -> Seq<Seq<char>> {
        self.spec_fields_of()
    }

    open spec fn spec_default_fields() -> Seq<Seq<char>> {
        seq![
            Seq::<char>::empty(),
            Seq::<char>::empty(),
            Seq::<char>::empty(),
            "01:00:00"@,
            Seq::<char>::empty(),
            Seq::<char>::empty(),
        ]
    }

    open spec fn spec_labels() -> Seq<Seq<char>> {
        seq![
            "Preset Name: "@,
            "Account: "@,
            "Partition: "@,
            "Max. Time: "@,
            "Work. Dir.: "@,
            "Other Options: "@,
        ]
    }

    proof fn lemma_field_count_bounds() {
    }

    proof fn lemma_labels_len() {
    }

    proof fn lemma_fields_len(&self) {
    }

    proof fn lemma_default_fields_len() {
    }

    fn field_count() -> (r: usize) {
        6
    }

    fn clone_entry(&self) -> (r: Self) {
        let r = Spawner {
            preset_name: self.preset_name.clone(),
            account: self.account.clone(),
            partition: self.partition.clone(),
            time: self.time.clone(),
            working_directory: self.working_directory.clone(),
            other_options: self.other_options.clone(),
        };
        proof {
            assert(r.spec_fields() =~= self.spec_fields());
        }
        r
    }

    /// A fresh preset: every field empty but a one-hour time limit.
    fn default_entry() -> (r: Self) {
        let r = Spawner::new("", "", "", "01:00:00", "", "");
        proof {
            reveal_strlit("");
            assert(r.spec_fields() =~~= Self::spec_default_fields());
        }
        r
    }

    fn get_entry_name(&self) -> (r: String) {
        self.preset_name.clone()
    }

    fn set_entry_name(&mut self, name: &str) {
        self.preset_name = name.to_owned();
        proof {
            assert(self.spec_fields() =~= old(self).spec_fields().update(0, name@));
        }
    }

    fn get_value_from_index(&self, index: usize) -> (r: String) {
        match index {
            0 => self.preset_name.clone(),
            1 => self.account.clone(),
            2 => self.partition.clone(),
            3 => self.time.clone(),
            4 => self.working_directory.clone(),
            5 => self.other_options.clone(),
            _ => String::new(),
        }
    }

    fn set_value_from_index(&mut self, index: usize, value: &str) {
        match index {
            0 => {
                self.preset_name = value.to_owned();
            },
            1 => {
                self.account = value.to_owned();
            },
            2 => {
                self.partition = value.to_owned();
            },
            3 => {
                self.time = value.to_owned();
            },
            4 => {
                self.working_directory = value.to_owned();
            },
            5 => {
                self.other_options = value.to_owned();
            },
            _ => {},
        }
        proof {
            if (index as nat) < Self::spec_field_count() {
                assert(self.spec_fields() =~= old(self).spec_fields().update(
                    index as int,
                    value@,
                ));
            } else {
                assert(self.spec_fields() =~= old(self).spec_fields());
            }
        }
    }

    fn get_entry_names(&self) -> (r: Vec<String>) {
        let mut r: Vec<String> = Vec::new();
        r.push("Preset Name: ".to_owned());
        r.push("Account: ".to_owned());
        r.push("Partition: ".to_owned());
        r.push("Max. Time: ".to_owned());
        r.push("Work. Dir.: ".to_owned());
        r.push("Other Options: ".to_owned());
        proof {
            assert(r@.map_values(|l: String| l@) =~= Self::spec_labels());
        }
        r
    }

    fn get_entry_values(&self) -> (r: Vec<String>) {
        let mut r: Vec<String> = Vec::new();
        r.push(self.preset_name.clone());
        r.push(self.account.clone());
        r.push(self.partition.clone());
        r.push(self.time.clone());
        r.push(self.working_directory.clone());
        r.push(self.other_options.clone());
        r
    }

    fn from_values(values: &Vec<String>) -> (r: Self) {
        Spawner {
            preset_name: values[0].clone(),
            account: values[1].clone(),
            partition: values[2].clone(),
            time: values[3].clone(),
            working_directory: values[4].clone(),
            other_options: values[5].clone(),
        }
    }
}

} // verus!
