//! Nova Assistant: answers questions about operating-system concepts from a knowledge base.
use vstd::prelude::*;
use crate::text::{trim_spec, contains_seq, str_to_chars, trim_chars, chars_to_string, contains_chars, str_eq};

verus! {

/// What `str::to_lowercase` gives for a text; the Unicode case tables behind it are not
/// restated here.
pub uninterp spec fn lowercase_of(s: Seq<char>) -> Seq<char>;

/// `c` in lower case when it is an ASCII capital letter, unchanged otherwise.
pub open spec fn ascii_lower(c: char) -> char {
    if 'A' <= c && c <= 'Z' { ((c as u32) + 32) as char } else { c }
}

/// `str::to_lowercase`. Claimed: the result is the name `lowercase_of` of the text, and for
/// ASCII text it is the text with each capital letter lowered, as the standard library
/// documents.
#[verifier::external_body]
fn to_lowercase(s: &str) -> (r: String)
    ensures
        r@ == lowercase_of(s@),
        (forall|i: int| 0 <= i < s@.len() ==> (s@[i] as u32) < 128) ==> r@ == s@.map_values(|c: char| ascii_lower(c)),
{
    s.to_lowercase()
}

/// The assistant and its topics, as `(topic, answer)` in the order they were added.
pub struct NovaAssistant {
    knowledge_base: Vec<(String, String)>,
}

/// The answer about the scheduler.
pub open spec fn scheduler_answer() -> Seq<char> {
    "NovaSchool OS uses three scheduler policies:\n1. Round-Robin: Cycles through ready PIDs giving equal slice (ticks).\n2. Priority: Selects process with highest Priority enum (RealTime > High > Normal).\n3. Real-Time: RT processes preempt all normal/low priority tasks instantly.\nTip: Use the scheduler configuration panel to swap policies and watch ticks run!"@
}

/// The first index at or after `i` whose topic equals `clean`, or the length when none does.
pub open spec fn exact_topic(kb: Seq<(Seq<char>, Seq<char>)>, clean: Seq<char>, i: int) -> int
    decreases kb.len() - i,
{
    if i < 0 || i >= kb.len() {
        kb.len() as int
    } else if kb[i].0 == clean {
        i
    } else {
        exact_topic(kb, clean, i + 1)
    }
}

/// The first index at or after `i` whose topic occurs in `clean`, or the length when none does.
pub open spec fn contained_topic(kb: Seq<(Seq<char>, Seq<char>)>, clean: Seq<char>, i: int) -> int
    decreases kb.len() - i,
{
    if i < 0 || i >= kb.len() {
        kb.len() as int
    } else if contains_seq(clean, kb[i].0) {
        i
    } else {
        contained_topic(kb, clean, i + 1)
    }
}

impl NovaAssistant {
    /// The topics as plain values.
    pub closed spec fn view(&self) -> Seq<(Seq<char>, Seq<char>)> {
        self.knowledge_base@.map_values(|e: (String, String)| (e.0@, e.1@))
    }

    /// The assistant with its topics: scheduler, memory and paging, filesystem and novafs,
    /// syscall, help, the commands ls, cat, grep and novapkg, and scheduling (the scheduler's
    /// answer, so that "explain scheduling" is understood).
    pub fn new() -> (a: NovaAssistant)
        ensures
            a.view().len() == 12,
            a.view()[0] == ("scheduler"@, scheduler_answer()),
            a.view()[2].0 == "paging"@ && a.view()[2].1 == a.view()[1].1,
            a.view()[4].0 == "novafs"@ && a.view()[4].1 == a.view()[3].1,
            a.view()[1].0 == "memory"@,
            a.view()[3].0 == "filesystem"@,
            a.view()[5].0 == "syscall"@,
            a.view()[6].0 == "help"@,
            a.view()[7].0 == "ls"@,
            a.view()[8].0 == "cat"@,
            a.view()[9].0 == "grep"@,
            a.view()[10].0 == "novapkg"@,
            a.view()[11] == ("scheduling"@, scheduler_answer()),
    {
        let mut kb: Vec<(String, String)> = Vec::new();
        let scheduler = "NovaSchool OS uses three scheduler policies:\n1. Round-Robin: Cycles through ready PIDs giving equal slice (ticks).\n2. Priority: Selects process with highest Priority enum (RealTime > High > Normal).\n3. Real-Time: RT processes preempt all normal/low priority tasks instantly.\nTip: Use the scheduler configuration panel to swap policies and watch ticks run!";
        kb.push((String::from_str("scheduler"), String::from_str(scheduler)));
        let memory = "Virtual memory in NovaSchool OS is structured as a 2-Level page table directory.\n- Page Size: 4096 bytes (4 KB).\n- Physical RAM: 128 MB mapped into 32,768 physical page frames.\n- Page Faults (Vector 14): Triggered on access violations or during Copy-On-Write (COW).\nWhen a write happens on a shared COW page, the kernel copies the page block dynamically!";
        kb.push((String::from_str("memory"), String::from_str(memory)));
        kb.push((String::from_str("paging"), String::from_str(memory)));
        let filesystem = "NovaFS is our custom structured educational filesystem. Layout:\n- Sector 1: Superblock containing file totals and journal offsets.\n- Sectors 2-10: Inode Table. Inodes track file size, permissions, owner UID/GID, and direct block pointers.\n- Sectors 11-15: Transaction Journal to recover incomplete actions during unexpected panic halts.\n- User Quotas: Student UIDs are limited to 100 KB max file sizes.";
        kb.push((String::from_str("filesystem"), String::from_str(filesystem)));
        kb.push((String::from_str("novafs"), String::from_str(filesystem)));
        kb.push((String::from_str("syscall"), String::from_str(
            "System Calls (syscalls) bridge userspace and the kernel.\n- sys_fork (2): Clones the caller process address space.\n- sys_read (3) / sys_write (4): Interact with Virtual Filesystem file descriptors.\n- sys_socket (7): Binds network ports for network sockets.\nWhen executing commands in the shell, watch the Syscall Log panel to inspect the flow in real-time!")));
        kb.push((String::from_str("help"), String::from_str(
            "I can explain operating system concepts. Ask me about:\n- 'scheduler' (Round-robin, priorities)\n- 'memory' or 'paging' (Page tables, frames, COW, page faults)\n- 'novafs' or 'filesystem' (Inodes, journal logs, snapshots, quotas)\n- 'syscall' (POSIX transitions, sys_fork, sys_write)\n- Or ask about commands like 'ls', 'cat', 'grep', 'novapkg'!")));
        kb.push((String::from_str("ls"), String::from_str("ls: Lists directory contents. In VFS, directories can be on NovaFS, FAT32, or EXT2 partitions.")));
        kb.push((String::from_str("cat"), String::from_str("cat: Reads files and writes contents to stdout. Behind the scenes, it invokes sys_read in a loop.")));
        kb.push((String::from_str("grep"), String::from_str("grep: Searches input lines for a specific string pattern. Can be combined with pipes (e.g. ls | grep student).")));
        kb.push((String::from_str("novapkg"), String::from_str("novapkg: Classroom package manager. Employs DFS topological sort to resolve library dependencies automatically.")));
        kb.push((String::from_str("scheduling"), String::from_str(scheduler)));
        NovaAssistant { knowledge_base: kb }
    }

    /// The answer for a cleaned query (trimmed and lower-cased): the topic equal to it, else
    /// the first topic it contains, else a default suggestion.
    pub open spec fn answer_spec(&self, clean: Seq<char>) -> Seq<char> {
        let kb = self.view();
        if clean.len() == 0 {
            "How can I assist you today? Type 'help' to see topics."@
        } else if exact_topic(kb, clean, 0) < kb.len() {
            kb[exact_topic(kb, clean, 0)].1
        } else if contained_topic(kb, clean, 0) < kb.len() {
            kb[contained_topic(kb, clean, 0)].1
        } else {
            "I'm not sure about that concept yet. Try asking about 'scheduler', 'memory', 'filesystem', 'syscall', or 'novapkg'!"@
        }
    }

    /// The answer for a query already trimmed and lower-cased.
    pub fn answer_for(&self, clean: &str) -> (r: String)
        ensures
            r@ == self.answer_spec(clean@),
    {
        let ghost kb = self.view();
        if clean.unicode_len() == 0 {
            return String::from_str("How can I assist you today? Type 'help' to see topics.");
        }
        let mut i: usize = 0;
        while i < self.knowledge_base.len()
            invariant
                kb == self.view(),
                kb.len() == self.knowledge_base@.len(),
                clean@.len() != 0,
                i <= self.knowledge_base@.len(),
                exact_topic(kb, clean@, 0) == exact_topic(kb, clean@, i as int),
            decreases self.knowledge_base@.len() - i,
        {
            assert(kb[i as int] == (self.knowledge_base@[i as int].0@, self.knowledge_base@[i as int].1@));
            if str_eq(self.knowledge_base[i].0.as_str(), clean) {
                return self.knowledge_base[i].1.clone();
            }
            i = i + 1;
        }
        let cc = str_to_chars(clean);
        let mut j: usize = 0;
        while j < self.knowledge_base.len()
            invariant
                kb == self.view(),
                kb.len() == self.knowledge_base@.len(),
                cc@ == clean@,
                clean@.len() != 0,
                j <= self.knowledge_base@.len(),
                exact_topic(kb, clean@, 0) == kb.len(),
                contained_topic(kb, clean@, 0) == contained_topic(kb, clean@, j as int),
            decreases self.knowledge_base@.len() - j,
        {
            assert(kb[j as int] == (self.knowledge_base@[j as int].0@, self.knowledge_base@[j as int].1@));
            let key = str_to_chars(self.knowledge_base[j].0.as_str());
            if contains_chars(cc.as_slice(), key.as_slice()) {
                return self.knowledge_base[j].1.clone();
            }
            j = j + 1;
        }
        String::from_str("I'm not sure about that concept yet. Try asking about 'scheduler', 'memory', 'filesystem', 'syscall', or 'novapkg'!")
    }

    /// Answers `query`: trimmed and lower-cased, then looked up (see `answer_for`).
    pub fn ask(&self, query: &str) -> (r: String)
        ensures
            r@ == self.answer_spec(lowercase_of(trim_spec(query@))),
            (forall|i: int| 0 <= i < query@.len() ==> (query@[i] as u32) < 128) ==>
                r@ == self.answer_spec(trim_spec(query@).map_values(|c: char| ascii_lower(c))),
    {
        let q = str_to_chars(query);
        let t = trim_chars(q.as_slice());
        let ts = chars_to_string(t.as_slice());
        proof {
            crate::text::lemma_trim_within(query@);
        }
        let clean = to_lowercase(ts.as_str());
        self.answer_for(clean.as_str())
    }
}

} // verus!
