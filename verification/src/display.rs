//! The outcome a command hands to the presentation layer.

use vstd::prelude::*;

use crate::codec::{dec_string, spec_dec};
use crate::config::{Mode, MyConfig};
use crate::task::{ReadyTask, WaitingTask};

verus! {

/// What a command did, with everything the presentation layer shows: the id
/// and primary description of the task acted on, or the listing asked for.
#[derive(Debug, PartialEq, Eq)]
pub enum SigoDisplay {
    CreateReadyTask(u32),
    CreateWaitingTask(u32),
    ModifyTask(u32, String),
    CompleteTask(u32, String),
    WaitTask(u32, String),
    WaitWaitingTask(u32, String),
    BackTask(u32, String),
    BackReadyTask(u32, String),
    AnnotateTask(u32, String),
    ListReadyTasks(Vec<ReadyTask>),
    ListWaitingTasks(Vec<WaitingTask>),
}

/// The terse rendering of an outcome, one line per report; a listing shows
/// the caller-rendered table alone.
pub open spec fn spec_display_minimum(d: SigoDisplay, table: Seq<char>) -> Seq<char> {
    match d {
        SigoDisplay::CreateReadyTask(id) => "Created sigo "@ + spec_dec(id as nat) + "\n"@,
        SigoDisplay::CreateWaitingTask(id) => "Created waiting sigo "@ + spec_dec(id as nat)
            + "\n"@,
        SigoDisplay::ModifyTask(id, description) => "Modify sigo "@ + spec_dec(id as nat)
            + " '"@ + description@ + "'\n"@,
        SigoDisplay::CompleteTask(id, description) => "Complete sigo "@ + spec_dec(id as nat)
            + " '"@ + description@ + "'\n"@,
        SigoDisplay::WaitTask(id, description) => "Waiting sigo "@ + spec_dec(id as nat)
            + " '"@ + description@ + "'\n"@,
        SigoDisplay::WaitWaitingTask(id, description) => "Already waiting sigo "@ + spec_dec(
            id as nat,
        ) + " '"@ + description@ + "'\n"@,
        SigoDisplay::BackTask(id, description) => "Returning sigo "@ + spec_dec(id as nat)
            + " '"@ + description@ + "'\n"@,
        SigoDisplay::BackReadyTask(id, description) => "Already ready sigo "@ + spec_dec(
            id as nat,
        ) + " '"@ + description@ + "'\n"@,
        SigoDisplay::AnnotateTask(id, description) => "Annotated sigo "@ + spec_dec(id as nat)
            + " '"@ + description@ + "'\n"@,
        SigoDisplay::ListReadyTasks(_) => table + "\n"@,
        SigoDisplay::ListWaitingTasks(_) => table + "\n"@,
    }
}

/// The talkative rendering of an outcome, with hints at follow-up commands;
/// a listing shows the caller-rendered table and a count, or a cheerful
/// line when there is nothing to list.
pub open spec fn spec_display_simple(d: SigoDisplay, table: Seq<char>) -> Seq<char> {
    match d {
        SigoDisplay::CreateReadyTask(id) => "✅ Created sigo "@ + spec_dec(id as nat)
            + ".\n\n    (use \"sigo done "@ + spec_dec(id as nat)
            + "\" to complete sigo)\n    (use \"sigo wait "@ + spec_dec(id as nat)
            + "\" to change sigo waiting)\n"@,
        SigoDisplay::CreateWaitingTask(id) => "✅ Created waiting sigo "@ + spec_dec(id as nat)
            + ".\n\n    (use \"sigo done "@ + spec_dec(id as nat)
            + "\" to complete sigo)\n    (use \"sigo back "@ + spec_dec(id as nat)
            + "\" to change sigo ready)\n"@,
        SigoDisplay::ModifyTask(id, description) => "✅ Modify sigo "@ + spec_dec(id as nat)
            + " '"@ + description@ + "'.\n\n    (use \"sigo done "@ + spec_dec(id as nat)
            + "\" to complete sigo)\n"@,
        SigoDisplay::CompleteTask(id, description) => "✅ Complete sigo "@ + spec_dec(
            id as nat,
        ) + " '"@ + description@
            + "'.\n\n    (use \"sigo list\" to list ready sigos)\n    (use \"sigo add\" to add sigo)\n"@,
        SigoDisplay::WaitTask(id, description) => "✅ Waiting sigo "@ + spec_dec(id as nat)
            + " '"@ + description@ + "'.\n"@,
        SigoDisplay::WaitWaitingTask(id, description) => "✅ Already waiting sigo "@
            + spec_dec(id as nat) + " '"@ + description@ + "'.\n"@,
        SigoDisplay::BackTask(id, description) => "✅ Returning sigo "@ + spec_dec(id as nat)
            + " '"@ + description@ + "'.\n"@,
        SigoDisplay::BackReadyTask(id, description) => "✅ Already ready sigo "@ + spec_dec(
            id as nat,
        ) + " '"@ + description@ + "'.\n"@,
        SigoDisplay::AnnotateTask(id, description) => "✅ Annotated sigo "@ + spec_dec(
            id as nat,
        ) + " '"@ + description@ + "'.\n"@,
        SigoDisplay::ListReadyTasks(tasks) => if tasks@.len() == 0 {
            "No sigos! Woot woot!\n    (use \"sigo add\" to add sigo)\n    (use \"sigo waiting\" to list waiting sigos)\n"@
        } else {
            table + "\n\n"@ + spec_dec(tasks@.len() as nat)
                + " sigos\n    (use \"sigo done\" to complete sigo)\n    (use \"sigo waiting\" to list waiting sigos)\n"@
        },
        SigoDisplay::ListWaitingTasks(tasks) => if tasks@.len() == 0 {
            "No matches.\n    (use \"sigo add\" to add sigo)\n    (use \"sigo list\" to list ready sigos)\n"@
        } else {
            table + "\n\n"@ + spec_dec(tasks@.len() as nat)
                + " sigos\n    (use \"sigo done\" to complete sigo)\n    (use \"sigo list\" to list ready sigos)\n"@
        },
    }
}

/// The rendering the configured mode asks for.
pub open spec fn spec_display(d: SigoDisplay, mode: Mode, table: Seq<char>) -> Seq<char> {
    match mode {
        Mode::Minimum => spec_display_minimum(d, table),
        Mode::Simple => spec_display_simple(d, table),
    }
}

impl SigoDisplay {
    /// Renders the outcome in the configured mode.  For a listing the
    /// caller hands in the rendered table of the tasks carried here; for
    /// every other outcome `table` is ignored.
    pub fn display(&self, cfg: &MyConfig, table: &str) -> (r: String)
        ensures
            r@ == spec_display(*self, cfg.mode, table@),
    {
        match cfg.mode {
            Mode::Minimum => self.display_minimum(table),
            Mode::Simple => self.display_simple(table),
        }
    }

    /// Renders the outcome tersely.
    fn display_minimum(&self, table: &str) -> (r: String)
        ensures
            r@ == spec_display_minimum(*self, table@),
    {
        let mut out = String::new();
        match self {
            SigoDisplay::CreateReadyTask(id) => {
                out.append("Created sigo ");
                let t = dec_string(*id as u64);
                out.append(t.as_str());
                out.append("\n");
            },
            SigoDisplay::CreateWaitingTask(id) => {
                out.append("Created waiting sigo ");
                let t = dec_string(*id as u64);
                out.append(t.as_str());
                out.append("\n");
            },
            SigoDisplay::ModifyTask(id, description) => {
                out.append("Modify sigo ");
                let t = dec_string(*id as u64);
                out.append(t.as_str());
                out.append(" '");
                out.append(description.as_str());
                out.append("'\n");
            },
            SigoDisplay::CompleteTask(id, description) => {
                out.append("Complete sigo ");
                let t = dec_string(*id as u64);
                out.append(t.as_str());
                out.append(" '");
                out.append(description.as_str());
                out.append("'\n");
            },
            SigoDisplay::WaitTask(id, description) => {
                out.append("Waiting sigo ");
                let t = dec_string(*id as u64);
                out.append(t.as_str());
                out.append(" '");
                out.append(description.as_str());
                out.append("'\n");
            },
            SigoDisplay::WaitWaitingTask(id, description) => {
                out.append("Already waiting sigo ");
                let t = dec_string(*id as u64);
                out.append(t.as_str());
                out.append(" '");
                out.append(description.as_str());
                out.append("'\n");
            },
            SigoDisplay::BackTask(id, description) => {
                out.append("Returning sigo ");
                let t = dec_string(*id as u64);
                out.append(t.as_str());
                out.append(" '");
                out.append(description.as_str());
                out.append("'\n");
            },
            SigoDisplay::BackReadyTask(id, description) => {
                out.append("Already ready sigo ");
                let t = dec_string(*id as u64);
                out.append(t.as_str());
                out.append(" '");
                out.append(description.as_str());
                out.append("'\n");
            },
            SigoDisplay::AnnotateTask(id, description) => {
                out.append("Annotated sigo ");
                let t = dec_string(*id as u64);
                out.append(t.as_str());
                out.append(" '");
                out.append(description.as_str());
                out.append("'\n");
            },
            SigoDisplay::ListReadyTasks(_) => {
                out.append(table);
                out.append("\n");
            },
            SigoDisplay::ListWaitingTasks(_) => {
                out.append(table);
                out.append("\n");
            },
        }
        out
    }

    /// Renders the outcome with follow-up hints.
    fn display_simple(&self, table: &str) -> (r: String)
        ensures
            r@ == spec_display_simple(*self, table@),
    {
        let mut out = String::new();
        match self {
            SigoDisplay::CreateReadyTask(id) => {
                let t = dec_string(*id as u64);
                out.append("✅ Created sigo ");
                out.append(t.as_str());
                out.append(".\n\n    (use \"sigo done ");
                out.append(t.as_str());
                out.append("\" to complete sigo)\n    (use \"sigo wait ");
                out.append(t.as_str());
                out.append("\" to change sigo waiting)\n");
            },
            SigoDisplay::CreateWaitingTask(id) => {
                let t = dec_string(*id as u64);
                out.append("✅ Created waiting sigo ");
                out.append(t.as_str());
                out.append(".\n\n    (use \"sigo done ");
                out.append(t.as_str());
                out.append("\" to complete sigo)\n    (use \"sigo back ");
                out.append(t.as_str());
                out.append("\" to change sigo ready)\n");
            },
            SigoDisplay::ModifyTask(id, description) => {
                let t = dec_string(*id as u64);
                out.append("✅ Modify sigo ");
                out.append(t.as_str());
                out.append(" '");
                out.append(description.as_str());
                out.append("'.\n\n    (use \"sigo done ");
                out.append(t.as_str());
                out.append("\" to complete sigo)\n");
            },
            SigoDisplay::CompleteTask(id, description) => {
                let t = dec_string(*id as u64);
                out.append("✅ Complete sigo ");
                out.append(t.as_str());
                out.append(" '");
                out.append(description.as_str());
                out.append(
                    "'.\n\n    (use \"sigo list\" to list ready sigos)\n    (use \"sigo add\" to add sigo)\n",
                );
            },
            SigoDisplay::WaitTask(id, description) => {
                let t = dec_string(*id as u64);
                out.append("✅ Waiting sigo ");
                out.append(t.as_str());
                out.append(" '");
                out.append(description.as_str());
                out.append("'.\n");
            },
            SigoDisplay::WaitWaitingTask(id, description) => {
                let t = dec_string(*id as u64);
                out.append("✅ Already waiting sigo ");
                out.append(t.as_str());
                out.append(" '");
                out.append(description.as_str());
                out.append("'.\n");
            },
            SigoDisplay::BackTask(id, description) => {
                let t = dec_string(*id as u64);
                out.append("✅ Returning sigo ");
                out.append(t.as_str());
                out.append(" '");
                out.append(description.as_str());
                out.append("'.\n");
            },
            SigoDisplay::BackReadyTask(id, description) => {
                let t = dec_string(*id as u64);
                out.append("✅ Already ready sigo ");
                out.append(t.as_str());
                out.append(" '");
                out.append(description.as_str());
                out.append("'.\n");
            },
            SigoDisplay::AnnotateTask(id, description) => {
                let t = dec_string(*id as u64);
                out.append("✅ Annotated sigo ");
                out.append(t.as_str());
                out.append(" '");
                out.append(description.as_str());
                out.append("'.\n");
            },
            SigoDisplay::ListReadyTasks(tasks) => {
                if tasks.len() == 0 {
                    out.append(
                        "No sigos! Woot woot!\n    (use \"sigo add\" to add sigo)\n    (use \"sigo waiting\" to list waiting sigos)\n",
                    );
                } else {
                    out.append(table);
                    out.append("\n\n");
                    let t = dec_string(tasks.len() as u64);
                    out.append(t.as_str());
                    out.append(
                        " sigos\n    (use \"sigo done\" to complete sigo)\n    (use \"sigo waiting\" to list waiting sigos)\n",
                    );
                }
            },
            SigoDisplay::ListWaitingTasks(tasks) => {
                if tasks.len() == 0 {
                    out.append(
                        "No matches.\n    (use \"sigo add\" to add sigo)\n    (use \"sigo list\" to list ready sigos)\n",
                    );
                } else {
                    out.append(table);
                    out.append("\n\n");
                    let t = dec_string(tasks.len() as u64);
                    out.append(t.as_str());
                    out.append(
                        " sigos\n    (use \"sigo done\" to complete sigo)\n    (use \"sigo list\" to list ready sigos)\n",
                    );
                }
            },
        }
        out
    }
}

} // verus!
