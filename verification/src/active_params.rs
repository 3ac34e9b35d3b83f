//! The shared payload of ready and waiting tasks.

use vstd::prelude::*;

use crate::date::Date;
use crate::priority::Priority;

verus! {

/// Mathematical image of [`ActiveParams`]: the description as a sequence of
/// character sequences, the other fields as plain values.
#[verifier::ext_equal]
pub struct ParamsV {
    pub id: u32,
    pub priority: Option<Priority>,
    pub description: Seq<Seq<char>>,
    pub due: Option<Date>,
}

impl ParamsV {
    /// What every stored active task satisfies: a positive id, at least one
    /// description line, and a due date (when present) that fits `YYYY-MM-DD`.
    pub open spec fn wf(self) -> bool {
        &&& self.id >= 1
        &&& self.description.len() >= 1
        &&& match self.due {
            Some(d) => d.valid(),
            None => true,
        }
    }

    /// The primary description line, or nothing when no line exists.
    pub open spec fn primary(self) -> Seq<char> {
        if self.description.len() > 0 {
            self.description[0]
        } else {
            Seq::<char>::empty()
        }
    }
}

/// The first of two optional values that is present, if any.
pub open spec fn opt_or<T>(a: Option<T>, b: Option<T>) -> Option<T> {
    match a {
        Some(v) => Some(v),
        None => b,
    }
}

/// The payload after an annotation: `t` appended as a new description line.
pub open spec fn spec_annotate(p: ParamsV, t: Seq<char>) -> ParamsV {
    ParamsV { description: p.description.push(t), ..p }
}

/// The payload after a modification: the primary line replaced when new text
/// is supplied, and priority and due date each replaced when a new value is
/// supplied and kept otherwise.
pub open spec fn spec_modify(
    p: ParamsV,
    text: Option<Seq<char>>,
    priority: Option<Priority>,
    due: Option<Date>,
) -> ParamsV {
    ParamsV {
        description: match text {
            Some(t) => if p.description.len() > 0 {
                p.description.update(0, t)
            } else {
                p.description
            },
            None => p.description,
        },
        priority: opt_or(priority, p.priority),
        due: opt_or(due, p.due),
        ..p
    }
}

/// Payload shared by ready and waiting tasks: id, optional priority, the
/// description lines (primary line first, annotations after it, in order),
/// and an optional due date.
#[derive(Debug, PartialEq, Eq)]
pub struct ActiveParams {
    pub id: u32,
    pub priority: Option<Priority>,
    pub description: Vec<String>,
    pub due: Option<Date>,
}

impl View for ActiveParams {
    type V = ParamsV;

    open spec fn view(&self) -> ParamsV {
        ParamsV {
            id: self.id,
            priority: self.priority,
            description: self.description.deep_view(),
            due: self.due,
        }
    }
}

/// Copies a vector of strings, line for line.
fn clone_strings(v: &Vec<String>) -> (r: Vec<String>)
    ensures
        r.deep_view() == v.deep_view(),
{
    let mut r: Vec<String> = Vec::new();
    let mut i: usize = 0;
    while i < v.len()
        invariant
            i <= v.len(),
            r@.len() == i,
            forall|j: int| 0 <= j < i ==> r@[j]@ == v@[j]@,
        decreases v.len() - i,
    {
        r.push(v[i].clone());
        i += 1;
    }
    proof {
        assert(r.deep_view() =~= v.deep_view());
    }
    r
}

impl Clone for ActiveParams {
    /// Copies the payload; the copy has the same image.
    fn clone(&self) -> (res: Self)
        ensures
            res@ == self@,
    {
        let res = ActiveParams {
            id: self.id,
            priority: self.priority,
            description: clone_strings(&self.description),
            due: self.due,
        };
        proof {
            assert(res@ =~= self@);
        }
        res
    }
}

impl ActiveParams {
    /// Returns a copy of the description lines.
    pub fn get_description(&self) -> (r: Vec<String>)
        ensures
            r.deep_view() == self@.description,
    {
        clone_strings(&self.description)
    }

    /// Returns the primary description line, or an empty string when the
    /// description is empty.
    pub fn get_primary_description(&self) -> (r: String)
        ensures
            r@ == self@.primary(),
    {
        if self.description.len() > 0 {
            self.description[0].clone()
        } else {
            String::new()
        }
    }

    /// Returns the payload with `text` appended as a new description line;
    /// every existing line is kept in place.
    pub fn annotate_description(&self, text: &str) -> (r: Self)
        ensures
            r@.id == self@.id,
            r@.priority == self@.priority,
            r@.due == self@.due,
            r@.description == self@.description.push(text@),
    {
        let mut description = clone_strings(&self.description);
        description.push(text.to_owned());
        let r = ActiveParams {
            id: self.id,
            description,
            priority: self.priority,
            due: self.due,
        };
        proof {
            assert(r@.description =~= self@.description.push(text@));
        }
        r
    }

    /// Returns the payload with the new priority when one is supplied, and
    /// the old one kept otherwise.
    pub fn modify_priority(&self, priority: Option<Priority>) -> (r: Self)
        ensures
            r@.id == self@.id,
            r@.description == self@.description,
            r@.due == self@.due,
            r@.priority == opt_or(priority, self@.priority),
    {
        let new_priority = match priority {
            Some(p) => Some(p),
            None => self.priority,
        };
        ActiveParams {
            id: self.id,
            description: clone_strings(&self.description),
            priority: new_priority,
            due: self.due,
        }
    }

    /// Returns the payload with the new due date when one is supplied, and
    /// the old one kept otherwise.
    pub fn modify_due(&self, due: Option<Date>) -> (r: Self)
        ensures
            r@.id == self@.id,
            r@.description == self@.description,
            r@.priority == self@.priority,
            r@.due == opt_or(due, self@.due),
    {
        let new_due = match due {
            Some(d) => Some(d),
            None => self.due,
        };
        ActiveParams {
            id: self.id,
            description: clone_strings(&self.description),
            priority: self.priority,
            due: new_due,
        }
    }

    /// Returns the payload with the primary line replaced when text is
    /// supplied; annotation lines are kept.  A payload without any line is
    /// returned unchanged.
    pub fn modify_description(&self, text: &Option<String>) -> (r: Self)
        ensures
            r@.id == self@.id,
            r@.priority == self@.priority,
            r@.due == self@.due,
            r@.description == (match *text {
                Some(t) => if self@.description.len() > 0 {
                    self@.description.update(0, t@)
                } else {
                    self@.description
                },
                None => self@.description,
            }),
    {
        let mut description = clone_strings(&self.description);
        if let Some(t) = text {
            if description.len() > 0 {
                description.set(0, t.clone());
                proof {
                    assert(description.deep_view() =~= self@.description.update(0, t@));
                }
            }
        }
        ActiveParams {
            id: self.id,
            description,
            priority: self.priority,
            due: self.due,
        }
    }
}

} // verus!
