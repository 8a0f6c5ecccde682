//! The job-provisioning pipeline's decisions.
//!
//! The pipeline discovers an existing scheduler allocation, submits one
//! when none exists, re-queries, and then publishes a route to the
//! allocated node. Every remote command is run by the caller; this
//! module only parses command output and decides, step by step, what
//! to do next, so the decision logic is checked for every possible
//! outcome of the remote side.

use vstd::prelude::*;

use crate::sshconfig::spec_lines;
use crate::strutil::spec_trim;
use crate::strutil::trim;

verus! {

/// The node identifier in scheduler query output: the first line,
/// trimmed of whitespace; empty output means no active allocation.
pub open spec fn spec_node_name(output: Seq<char>) -> Option<Seq<char>> {
    if spec_trim(spec_lines(output)[0]).len() == 0 {
        Option::None
    } else {
        Option::Some(spec_trim(spec_lines(output)[0]))
    }
}

/// Read the allocated node's identifier out of scheduler query output.
pub fn parse_node_name(output: &str) -> (r: Option<String>)
    ensures
        r is Some <==> spec_node_name(output@) is Some,
        r matches Some(n) ==> spec_node_name(output@) == Option::Some(n@),
{
    let lines = crate::sshconfig::split_lines(output);
    proof {
        crate::sshconfig::lemma_lines_no_nl(output@);
        assert(lines@.map_values(|l: String| l@)[0] == spec_lines(output@)[0]);
    }
    let first = trim(lines[0].as_str());
    if first.as_str().is_empty() {
        Option::None
    } else {
        Option::Some(first)
    }
}

/// The working directory the editor should open: the preset's own when
/// it is set, otherwise the remote home directory, trimmed as the
/// remote shell printed it.
pub fn resolve_working_directory(preset_wd: &str, home_output: &str) -> (r: String)
    ensures
        preset_wd@.len() > 0 ==> r@ == preset_wd@,
        preset_wd@.len() == 0 ==> r@ == spec_trim(home_output@),
{
    if preset_wd.unicode_len() > 0 {
        preset_wd.to_owned()
    } else {
        trim(home_output)
    }
}

/// The scheduler status query for the jobs the current remote user
/// owns under the preset's name; its exact text is a contract with the
/// remote shell and scheduler.
pub open spec fn spec_status_query(preset_name: Seq<char>) -> Seq<char> {
    "squeue -u $USER --name "@ + preset_name
}

/// Render the scheduler status query the caller runs over the session.
pub fn format_status_query(preset_name: &str) -> (r: String)
    ensures
        r@ == spec_status_query(preset_name@),
{
    let mut r = "squeue -u $USER --name ".to_owned();
    r.append(preset_name);
    r
}

/// The remote-workspace address for the published alias and working
/// directory.
pub open spec fn spec_remote_uri(alias: Seq<char>, wd: Seq<char>) -> Seq<char> {
    "vscode-remote://ssh-remote+cr-"@ + alias + "/"@ + wd
}

/// Render the remote-workspace address the editor is pointed at.
pub fn format_remote_uri(alias: &str, wd: &str) -> (r: String)
    ensures
        r@ == spec_remote_uri(alias@, wd@),
{
    let mut r = "vscode-remote://ssh-remote+cr-".to_owned();
    r.append(alias);
    r.append("/");
    r.append(wd);
    proof {
        assert(r@ =~= spec_remote_uri(alias@, wd@));
    }
    r
}

/// Where a provisioning run stands.
#[derive(Debug, PartialEq, Eq, Structural, Clone, Copy)]
pub enum ProvisionPhase {
    /// The first allocation query is outstanding.
    FirstQuery,
    /// No allocation was found; the submit command is outstanding.
    Submit,
    /// The query after the submission is outstanding.
    SecondQuery,
    /// The run ended, in success or failure.
    Finished,
}

/// What the caller must do next.
#[derive(Debug, PartialEq, Clone)]
pub enum ProvisionStep {
    /// Run the allocation query and report its output.
    RunQuery,
    /// Run the submit command to completion and report back.
    RunSubmit,
    /// Publish a route to this node and launch the editor.
    Publish(String),
    /// Abort: the scheduler assigned no node even after a submission.
    Fail,
}

/// The machine's transition on a query result, as a mathematical
/// function: a discovered node is published; an empty first discovery
/// triggers one submission; an empty second discovery aborts.
pub open spec fn spec_on_query(phase: ProvisionPhase, node: Option<Seq<char>>) -> (
    ProvisionPhase,
    Option<Seq<char>>,
) {
    match node {
        Option::Some(n) => (ProvisionPhase::Finished, Option::Some(n)),
        Option::None => {
            if phase == ProvisionPhase::FirstQuery {
                (ProvisionPhase::Submit, Option::None)
            } else {
                (ProvisionPhase::Finished, Option::None)
            }
        },
    }
}

/// The submit commands a whole provisioning run issues, given the two
/// possible query outcomes: one when the first discovery is empty, and
/// none otherwise. The first discovery alone decides.
pub open spec fn spec_submit_count(first: Option<Seq<char>>) -> nat {
    if first is None {
        1
    } else {
        0
    }
}

/// One provisioning run submits an allocation exactly once when the
/// first discovery comes back empty, and never otherwise; whichever
/// discovery finds a node, that node is the one published.
pub proof fn lemma_submit_exactly_once(first: Option<Seq<char>>, second: Option<Seq<char>>)
    ensures
        first is None ==> spec_on_query(ProvisionPhase::FirstQuery, first) == (
        ProvisionPhase::Submit,
        Option::<Seq<char>>::None,
        ),
        first is None ==> spec_submit_count(first) == 1,
        first matches Some(n) ==> (spec_on_query(ProvisionPhase::FirstQuery, first) == (
        ProvisionPhase::Finished,
        Option::Some(n),
        ) && spec_submit_count(first) == 0),
        second matches Some(n) ==> (first is None ==> spec_on_query(
            ProvisionPhase::SecondQuery,
            second,
        ) == (ProvisionPhase::Finished, Option::Some(n))),
        (first is None && second is None) ==> spec_on_query(ProvisionPhase::SecondQuery, second)
            == (ProvisionPhase::Finished, Option::<Seq<char>>::None),
{
}

/// Drives one provisioning run: the caller performs each returned
/// step's remote work and reports the outcome.
#[derive(Debug)]
pub struct Provisioner {
    pub phase: ProvisionPhase,
}

impl Provisioner {
    /// A fresh run; its first duty is the allocation query.
    pub fn new() -> (r: Provisioner)
        ensures
            r.phase == ProvisionPhase::FirstQuery,
    {
        Provisioner { phase: ProvisionPhase::FirstQuery }
    }

    /// Report a query's result and learn the next step.
    pub fn on_query_result(&mut self, node: Option<String>) -> (step: ProvisionStep)
        requires
            old(self).phase == ProvisionPhase::FirstQuery || old(self).phase
                == ProvisionPhase::SecondQuery,
        ensures
            final(self).phase == spec_on_query(
                old(self).phase,
                match node {
                    Option::Some(n) => Option::Some(n@),
                    Option::None => Option::None,
                },
            ).0,
            node matches Some(n) ==> step == ProvisionStep::Publish(n),
            node is None && old(self).phase == ProvisionPhase::FirstQuery ==> step
                == ProvisionStep::RunSubmit,
            node is None && old(self).phase == ProvisionPhase::SecondQuery ==> step
                == ProvisionStep::Fail,
    {
        match node {
            Option::Some(n) => {
                self.phase = ProvisionPhase::Finished;
                ProvisionStep::Publish(n)
            },
            Option::None => {
                if self.phase == ProvisionPhase::FirstQuery {
                    self.phase = ProvisionPhase::Submit;
                    ProvisionStep::RunSubmit
                } else {
                    self.phase = ProvisionPhase::Finished;
                    ProvisionStep::Fail
                }
            },
        }
    }

    /// Report that the submit command finished; the allocation is
    /// queried again.
    pub fn on_submit_done(&mut self) -> (step: ProvisionStep)
        requires
            old(self).phase == ProvisionPhase::Submit,
        ensures
            final(self).phase == ProvisionPhase::SecondQuery,
            step == ProvisionStep::RunQuery,
    {
        self.phase = ProvisionPhase::SecondQuery;
        ProvisionStep::RunQuery
    }
}

} // verus!
