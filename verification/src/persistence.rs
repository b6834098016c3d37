//! The persistence policy: where things are kept, in which format, and when
//! it is time to save.

use vstd::prelude::*;
use crate::text::append_str;
use crate::text::chars_of;
use crate::text::lowercase_spec;
use crate::text::lowercase_str;
use crate::text::owned;
use crate::text::same_text;
use crate::text::string_of;

verus! {

/// The formats in which memory can be kept.
#[derive(Debug, Clone, Copy, PartialEq, Eq, Structural)]
pub enum PersistenceFormat {
    /// Readable by people.
    Json,
    /// Fast and compact.
    Binary,
    /// Structured data readable, embeddings compact.
    Hybrid,
}

/// The format that a lower-case name denotes.
pub open spec fn format_of_name_spec(name: Seq<char>) -> Option<PersistenceFormat> {
    if name == "json"@ {
        Some(PersistenceFormat::Json)
    } else if name == "binary"@ {
        Some(PersistenceFormat::Binary)
    } else if name == "hybrid"@ {
        Some(PersistenceFormat::Hybrid)
    } else {
        None
    }
}

/// The format that a lower-case name denotes, if any.
pub fn format_from_lowercase(name: &str) -> (format: Option<PersistenceFormat>)
    ensures
        format == format_of_name_spec(name@),
{
    if same_text(name, "json") {
        Some(PersistenceFormat::Json)
    } else if same_text(name, "binary") {
        Some(PersistenceFormat::Binary)
    } else if same_text(name, "hybrid") {
        Some(PersistenceFormat::Hybrid)
    } else {
        None
    }
}

/// The message for a name that denotes no format.
pub open spec fn invalid_format_spec(name: Seq<char>) -> Seq<char> {
    "Invalid persistence format: "@ + name + ". Use: json, binary, hybrid"@
}

/// The format that a name denotes, whatever its case; or a message that
/// says which names there are.
pub fn parse_persistence_format(format_str: &str) -> (outcome: Result<PersistenceFormat, String>)
    ensures
        match outcome {
            Ok(format) => format_of_name_spec(lowercase_spec(format_str@)) == Some(format),
            Err(message) => format_of_name_spec(lowercase_spec(format_str@)) is None && message@
                == invalid_format_spec(format_str@),
        },
{
    let lower = lowercase_str(format_str);
    match format_from_lowercase(lower.as_str()) {
        Some(format) => Ok(format),
        None => {
            let mut message: Vec<char> = Vec::new();
            append_str(&mut message, "Invalid persistence format: ");
            append_str(&mut message, format_str);
            append_str(&mut message, ". Use: json, binary, hybrid");
            assert(message@ =~= invalid_format_spec(format_str@));
            Err(string_of(message.as_slice()))
        },
    }
}

/// After how many operations memory is saved unless told otherwise.
pub const DEFAULT_AUTO_SAVE_INTERVAL: usize = 10;

/// The persistence policy of one store.
#[derive(Debug, Clone)]
pub struct PersistenceManager {
    base_path: String,
    format: PersistenceFormat,
    auto_save_interval: usize,
    operation_count: usize,
}

/// The mathematical value of a `PersistenceManager`.
pub struct PersistenceManagerView {
    pub base_path: Seq<char>,
    pub format: PersistenceFormat,
    pub auto_save_interval: usize,
    pub operation_count: usize,
}

impl View for PersistenceManager {
    type V = PersistenceManagerView;

    closed spec fn view(&self) -> PersistenceManagerView {
        PersistenceManagerView {
            base_path: self.base_path@,
            format: self.format,
            auto_save_interval: self.auto_save_interval,
            operation_count: self.operation_count,
        }
    }
}

impl PersistenceManagerView {
    /// Whether the next operation is the one at which to save.
    pub open spec fn due(self) -> bool {
        self.operation_count + 1 >= self.auto_save_interval
    }

    /// The policy after one more operation: the count starts over where it
    /// is time to save, and goes up by one otherwise.
    pub open spec fn after_operation(self) -> PersistenceManagerView {
        PersistenceManagerView {
            operation_count: if self.due() {
                0
            } else {
                (self.operation_count + 1) as usize
            },
            ..self
        }
    }

    /// The policy after `count` more operations.
    pub open spec fn after_operations(self, count: nat) -> PersistenceManagerView
        decreases count,
    {
        if count == 0 {
            self
        } else {
            self.after_operations((count - 1) as nat).after_operation()
        }
    }
}

impl PersistenceManager {
    /// A policy for the given directory: hybrid format, saving after every
    /// ten operations.
    pub fn new(base_path: &str) -> (manager: PersistenceManager)
        ensures
            manager@ == (PersistenceManagerView {
                base_path: base_path@,
                format: PersistenceFormat::Hybrid,
                auto_save_interval: DEFAULT_AUTO_SAVE_INTERVAL,
                operation_count: 0,
            }),
    {
        PersistenceManager {
            base_path: owned(base_path),
            format: PersistenceFormat::Hybrid,
            auto_save_interval: DEFAULT_AUTO_SAVE_INTERVAL,
            operation_count: 0,
        }
    }

    /// A policy for the given directory, format and interval.
    pub fn with_config(base_path: &str, format: PersistenceFormat, auto_save_interval: usize) -> (manager:
        PersistenceManager)
        ensures
            manager@ == (PersistenceManagerView {
                base_path: base_path@,
                format,
                auto_save_interval,
                operation_count: 0,
            }),
    {
        PersistenceManager {
            base_path: owned(base_path),
            format,
            auto_save_interval,
            operation_count: 0,
        }
    }

    /// The directory in which everything is kept.
    pub fn base_path(&self) -> (path: &String)
        ensures
            path@ == self@.base_path,
    {
        &self.base_path
    }

    /// The format in which memory is kept.
    pub fn format(&self) -> (format: PersistenceFormat)
        ensures
            format == self@.format,
    {
        self.format
    }

    /// The directory `name` below the base directory.
    pub fn directory(&self, name: &str) -> (path: String)
        ensures
            path@ == self@.base_path + "/"@ + name@,
    {
        let mut path: Vec<char> = Vec::new();
        append_str(&mut path, self.base_path.as_str());
        append_str(&mut path, "/");
        append_str(&mut path, name);
        assert(path@ =~= self@.base_path + "/"@ + name@);
        string_of(path.as_slice())
    }

    /// Counts one operation and says whether it is time to save: it is once
    /// the count has reached the interval, and the count then starts over.
    pub fn should_auto_save(&mut self) -> (save: bool)
        ensures
            save == old(self)@.due(),
            final(self)@ == old(self)@.after_operation(),
    {
        if self.operation_count >= self.auto_save_interval || self.operation_count + 1
            >= self.auto_save_interval {
            self.operation_count = 0;
            true
        } else {
            self.operation_count = self.operation_count + 1;
            false
        }
    }
}

/// Whether a file name is that of a backup of the whole memory.
pub open spec fn is_backup_name_spec(name: Seq<char>) -> bool {
    let head = "memory_backup_"@;
    let tail = ".json"@;
    &&& name.len() >= head.len()
    &&& name.take(head.len() as int) == head
    &&& name.len() >= tail.len()
    &&& name.skip(name.len() - tail.len()) == tail
}

/// Whether a file name is that of a backup of the whole memory.
pub fn is_backup_name(name: &str) -> (backup: bool)
    ensures
        backup == is_backup_name_spec(name@),
{
    let chars = chars_of(name);
    let head = chars_of("memory_backup_");
    let tail = chars_of(".json");
    if chars.len() < head.len() || chars.len() < tail.len() {
        return false;
    }
    proof {
        assert(chars@.take(head@.len() as int) =~= chars@.subrange(0, head@.len() as int));
        assert(chars@.skip(chars@.len() - tail@.len()) =~= chars@.subrange(
            chars@.len() - tail@.len(),
            chars@.len() as int,
        ));
    }
    crate::text::matches_at(chars.as_slice(), head.as_slice(), 0) && crate::text::matches_at(
        chars.as_slice(),
        tail.as_slice(),
        chars.len() - tail.len(),
    )
}

/// From a count of zero and with an interval of at least one, the first
/// operations do not ask to save and the operation that completes the
/// interval does, after which the count is zero again.
pub proof fn lemma_auto_save_cycle(policy: PersistenceManagerView, count: nat)
    requires
        policy.operation_count == 0,
        policy.auto_save_interval >= 1,
        count < policy.auto_save_interval,
    ensures
        policy.after_operations(count).operation_count == count,
        policy.after_operations(count).auto_save_interval == policy.auto_save_interval,
        policy.after_operations(count).due() <==> count + 1 == policy.auto_save_interval,
        count + 1 == policy.auto_save_interval ==> policy.after_operations(
            count + 1,
        ).operation_count == 0,
    decreases count,
{
    if count > 0 {
        lemma_auto_save_cycle(policy, (count - 1) as nat);
    }
    assert(policy.after_operations(count + 1) == policy.after_operations(
        count,
    ).after_operation());
}

} // verus!
