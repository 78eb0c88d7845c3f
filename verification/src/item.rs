//! A richer item model: a yak with an explicit state, a context and a
//! modification time, plus the helpers that read its hierarchical name.

use vstd::prelude::*;
use vstd::string::StrSliceExecFns;
use crate::domain::{spec_is_under, name_is_under};
use crate::errors::YakError;

verus! {

/// Whether a character counts as trimmable whitespace.
pub open spec fn spec_is_ws(c: char) -> bool {
    c == ' ' || c == '\t' || c == '\n' || c == '\r'
}

/// The string with leading whitespace removed.
pub open spec fn trim_front(s: Seq<char>) -> Seq<char>
    decreases s.len(),
{
    if s.len() > 0 && spec_is_ws(s[0]) {
        trim_front(s.drop_first())
    } else {
        s
    }
}

/// The string with trailing whitespace removed.
pub open spec fn trim_back(s: Seq<char>) -> Seq<char>
    decreases s.len(),
{
    if s.len() > 0 && spec_is_ws(s.last()) {
        trim_back(s.drop_last())
    } else {
        s
    }
}

/// The string with whitespace removed on both ends.
pub open spec fn spec_trim(s: Seq<char>) -> Seq<char> {
    trim_back(trim_front(s))
}

proof fn lemma_trim_front_at(s: Seq<char>, i: int)
    requires
        0 <= i <= s.len(),
        forall|j: int| 0 <= j < i ==> spec_is_ws(s[j]),
        i < s.len() ==> !spec_is_ws(s[i]),
    ensures
        trim_front(s) == s.skip(i),
    decreases i,
{
    if i == 0 {
        assert(s.skip(0) =~= s);
    } else {
        assert(forall|j: int| 0 <= j < i - 1 ==> spec_is_ws(s.drop_first()[j]));
        lemma_trim_front_at(s.drop_first(), i - 1);
        assert(s.drop_first().skip(i - 1) =~= s.skip(i));
    }
}

proof fn lemma_trim_back_at(s: Seq<char>, k: int)
    requires
        0 <= k <= s.len(),
        forall|j: int| k <= j < s.len() ==> spec_is_ws(s[j]),
        k > 0 ==> !spec_is_ws(s[k - 1]),
    ensures
        trim_back(s) == s.take(k),
    decreases s.len() - k,
{
    if k == s.len() {
        assert(s.take(k) =~= s);
    } else {
        assert(forall|j: int| k <= j < s.len() - 1 ==> spec_is_ws(s.drop_last()[j]));
        lemma_trim_back_at(s.drop_last(), k);
        assert(s.drop_last().take(k) =~= s.take(k));
    }
}

/// Whether an item is still open or finished.
#[derive(Debug, Clone, Copy, PartialEq, Eq, Structural)]
pub enum YakState {
    Todo,
    Done,
}

impl YakState {
    /// Parse a state marker: the trimmed text `done` is done, anything else
    /// is still to do.
    pub fn from_str(s: &str) -> (r: YakState)
        ensures
            (r == YakState::Done) == (spec_trim(s@) == seq!['d', 'o', 'n', 'e']),
    {
        let n = s.unicode_len();
        let mut i: usize = 0;
        while i < n
            invariant
                0 <= i <= n,
                n == s@.len(),
                forall|j: int| 0 <= j < i ==> spec_is_ws(s@[j]),
            ensures
                0 <= i <= n,
                forall|j: int| 0 <= j < i ==> spec_is_ws(s@[j]),
                i < n ==> !spec_is_ws(s@[i as int]),
            decreases n - i,
        {
            let c = s.get_char(i);
            if !(c == ' ' || c == '\t' || c == '\n' || c == '\r') {
                break;
            }
            i = i + 1;
        }
        let mut k: usize = n;
        while k > i
            invariant
                i <= k <= n,
                n == s@.len(),
                forall|j: int| k <= j < n ==> spec_is_ws(s@[j]),
            ensures
                i <= k <= n,
                forall|j: int| k <= j < n ==> spec_is_ws(s@[j]),
                k > i ==> !spec_is_ws(s@[k - 1]),
            decreases k,
        {
            let c = s.get_char(k - 1);
            if !(c == ' ' || c == '\t' || c == '\n' || c == '\r') {
                break;
            }
            k = k - 1;
        }
        proof {
            lemma_trim_front_at(s@, i as int);
            if k > i {
                lemma_trim_back_at(s@.skip(i as int), k - i);
            } else {
                assert(forall|j: int| 0 <= j < s@.skip(i as int).len() ==> spec_is_ws(
                    #[trigger] s@.skip(i as int)[j],
                ));
                lemma_trim_back_at(s@.skip(i as int), 0);
            }
            assert(spec_trim(s@) == s@.skip(i as int).take(k - i as int));
        }
        if k - i != 4 {
            proof {
                assert(spec_trim(s@).len() != 4);
            }
            return YakState::Todo;
        }
        let good = s.get_char(i) == 'd' && s.get_char(i + 1) == 'o' && s.get_char(i + 2) == 'n'
            && s.get_char(i + 3) == 'e';
        proof {
            let t = spec_trim(s@);
            assert(t.len() == 4);
            assert(t[0] == s@[i as int] && t[1] == s@[i as int + 1] && t[2] == s@[i as int + 2]
                && t[3] == s@[i as int + 3]);
            if good {
                assert(t =~= seq!['d', 'o', 'n', 'e']);
            } else {
                assert(t != seq!['d', 'o', 'n', 'e']) by {
                    if t =~= seq!['d', 'o', 'n', 'e'] {
                        assert(t[0] == 'd' && t[1] == 'o' && t[2] == 'n' && t[3] == 'e');
                    }
                }
            }
        }
        if good {
            YakState::Done
        } else {
            YakState::Todo
        }
    }

    /// The state's marker text.
    pub fn as_str(&self) -> (r: &'static str)
        ensures
            *self == YakState::Todo ==> r@ == "todo"@,
            *self == YakState::Done ==> r@ == "done"@,
    {
        match self {
            YakState::Todo => "todo",
            YakState::Done => "done",
        }
    }
}

/// Index of the last separator in a name, or -1 if it has none.
pub open spec fn last_slash(s: Seq<char>) -> int
    decreases s.len(),
{
    if s.len() == 0 {
        -1
    } else if s.last() == '/' {
        s.len() - 1
    } else {
        last_slash(s.drop_last())
    }
}

proof fn lemma_last_slash_at(s: Seq<char>, k: int)
    requires
        -1 <= k < s.len(),
        k >= 0 ==> s[k] == '/',
        forall|j: int| k < j < s.len() ==> s[j] != '/',
    ensures
        last_slash(s) == k,
    decreases s.len(),
{
    if s.len() > 0 && s.last() != '/' {
        lemma_last_slash_at(s.drop_last(), k);
    }
}

/// Number of separators in a name.
pub open spec fn count_slash(s: Seq<char>) -> int
    decreases s.len(),
{
    if s.len() == 0 {
        0
    } else {
        count_slash(s.drop_last()) + (if s.last() == '/' {
            1int
        } else {
            0int
        })
    }
}

proof fn lemma_count_slash_bounds(s: Seq<char>)
    ensures
        0 <= count_slash(s) <= s.len(),
    decreases s.len(),
{
    if s.len() > 0 {
        lemma_count_slash_bounds(s.drop_last());
    }
}

/// Count the separators of a string, from the given position on.
fn count_slashes_from(s: &str, from: usize) -> (r: usize)
    requires
        from <= s@.len(),
    ensures
        r == count_slash(s@.skip(from as int)),
{
    let n = s.unicode_len();
    let mut cnt: usize = 0;
    let mut i: usize = from;
    proof {
        assert(s@.skip(from as int).take(0) =~= Seq::<char>::empty());
        lemma_count_slash_bounds(s@.skip(from as int));
    }
    while i < n
        invariant
            from <= i <= n,
            n == s@.len(),
            cnt == count_slash(s@.skip(from as int).take(i - from as int)),
            cnt <= i - from,
        decreases n - i,
    {
        proof {
            let t = s@.skip(from as int);
            assert(t.take(i - from as int + 1).drop_last() =~= t.take(i - from as int));
            assert(t.take(i - from as int + 1).last() == s@[i as int]);
            lemma_count_slash_bounds(t.take(i - from as int));
        }
        if s.get_char(i) == '/' {
            cnt = cnt + 1;
        }
        i = i + 1;
    }
    proof {
        assert(s@.skip(from as int).take(n - from as int) =~= s@.skip(from as int));
    }
    cnt
}

/// A task item with an explicit state, free-text context, and a modification
/// time in seconds; the caller supplies the clock reading.
#[derive(Debug, Clone)]
pub struct Yak {
    pub name: String,
    pub state: YakState,
    pub context: String,
    pub mtime: u64,
}

impl Yak {
    /// A fresh open item with empty context; its time starts at zero until a
    /// clock reading is attached with `with_mtime`.
    pub fn new(name: String) -> (y: Yak)
        ensures
            y.name@ == name@,
            y.state == YakState::Todo,
            y.context@ == Seq::<char>::empty(),
            y.mtime == 0,
    {
        Yak { name, state: YakState::Todo, context: String::new(), mtime: 0 }
    }

    /// The same item with the given state.
    pub fn with_state(self, state: YakState) -> (y: Yak)
        ensures
            y.name@ == self.name@ && y.state == state && y.context@ == self.context@ && y.mtime
                == self.mtime,
    {
        Yak { state, ..self }
    }

    /// The same item with the given context.
    pub fn with_context(self, context: String) -> (y: Yak)
        ensures
            y.name@ == self.name@ && y.state == self.state && y.context@ == context@ && y.mtime
                == self.mtime,
    {
        Yak { context, ..self }
    }

    /// The same item with the given modification time.
    pub fn with_mtime(self, mtime: u64) -> (y: Yak)
        ensures
            y.name@ == self.name@ && y.state == self.state && y.context@ == self.context@
                && y.mtime == mtime,
    {
        Yak { mtime, ..self }
    }

    /// The last segment of the item's name.
    pub fn basename(&self) -> (r: &str)
        ensures
            r@ == self.name@.skip(last_slash(self.name@) + 1),
    {
        let n = self.name.as_str().unicode_len();
        let mut i: usize = n;
        while i > 0
            invariant
                0 <= i <= n,
                n == self.name@.len(),
                forall|j: int| i <= j < n ==> self.name@[j] != '/',
            ensures
                0 <= i <= n,
                forall|j: int| i <= j < n ==> self.name@[j] != '/',
                i > 0 ==> self.name@[i - 1] == '/',
            decreases i,
        {
            let c = self.name.as_str().get_char(i - 1);
            if c == '/' {
                break;
            }
            i = i - 1;
        }
        proof {
            lemma_last_slash_at(self.name@, i - 1);
        }
        let r = self.name.as_str().substring_char(i, n);
        proof {
            assert(r@ =~= self.name@.skip(last_slash(self.name@) + 1));
        }
        r
    }

    /// How many levels below the root the item sits: the number of
    /// separators in its name.
    pub fn depth(&self) -> (r: usize)
        ensures
            r == count_slash(self.name@),
    {
        proof {
            assert(self.name@.skip(0) =~= self.name@);
        }
        count_slashes_from(self.name.as_str(), 0)
    }

    /// The name one level up, if the item is not at the root.
    pub fn parent(&self) -> (r: Option<String>)
        ensures
            last_slash(self.name@) < 0 ==> r is None,
            last_slash(self.name@) >= 0 ==> (r matches Some(p) && p@ == self.name@.take(
                last_slash(self.name@),
            )),
    {
        let n = self.name.as_str().unicode_len();
        let mut i: usize = n;
        while i > 0
            invariant
                0 <= i <= n,
                n == self.name@.len(),
                forall|j: int| i <= j < n ==> self.name@[j] != '/',
            ensures
                0 <= i <= n,
                forall|j: int| i <= j < n ==> self.name@[j] != '/',
                i > 0 ==> self.name@[i - 1] == '/',
            decreases i,
        {
            let c = self.name.as_str().get_char(i - 1);
            if c == '/' {
                break;
            }
            i = i - 1;
        }
        proof {
            lemma_last_slash_at(self.name@, i - 1);
        }
        if i == 0 {
            None
        } else {
            let p = self.name.as_str().substring_char(0, i - 1);
            Some(p.to_owned())
        }
    }

    /// Whether the item is a direct child of the given name; the empty name
    /// and `.` stand for the root level.
    pub fn is_child_of(&self, parent: &str) -> (r: bool)
        ensures
            parent@.len() == 0 || parent@ == seq!['.'] ==> r == (count_slash(self.name@) == 0),
            parent@.len() > 0 && parent@ != seq!['.'] ==> r == (spec_is_under(self.name@, parent@)
                && count_slash(self.name@.skip(parent@.len() as int + 1)) == 0),
    {
        let np = parent.unicode_len();
        let is_dot = np == 1 && parent.get_char(0) == '.';
        let is_root = np == 0 || is_dot;
        proof {
            if is_dot {
                assert(parent@ =~= seq!['.']);
            }
            if parent@ == seq!['.'] {
                assert(parent@.len() == 1 && parent@[0] == '.');
            }
        }
        if is_root {
            let d = self.depth();
            return d == 0;
        }
        if !name_is_under(self.name.as_str(), parent) {
            return false;
        }
        let nn = self.name.as_str().unicode_len();
        proof {
            assert(np < nn);
        }
        let c = count_slashes_from(self.name.as_str(), np + 1);
        c == 0
    }
}

/// The version-control collaborator behind the replicated store.
pub trait GitRepository {
    /// Whether the working directory is inside a repository.
    fn is_repository(&self) -> bool;

    /// Whether a remote named origin is configured.
    fn has_origin_remote(&self) -> bool;

    /// Whether the given path is ignored by the repository.
    fn check_ignore(&self, path: &str) -> Result<bool, YakError>;

    /// Record the current state under the given operation name.
    fn log_command(&self, message: &str) -> Result<(), YakError>;

    /// Run one full synchronization round.
    fn sync(&self) -> Result<(), YakError>;
}

/// How a listing is rendered.
pub enum OutputFormat {
    Markdown,
    Plain,
}

/// Which items a listing shows.
pub enum YakFilter {
    All,
    NotDone,
    Done,
}

/// Formatting of listings and single items, implemented by the presentation
/// layer.
pub trait OutputFormatter {
    /// Render a list of items in the given format and filter.
    fn format_yak_list(&self, yaks: &[Yak], format: OutputFormat, filter: YakFilter) -> String;

    /// Render one item with its context.
    fn format_yak_with_context(&self, yak: &Yak) -> String;

    /// Render the message shown when the list is empty.
    fn format_empty_list(&self, format: OutputFormat) -> String;
}

/// State-based, mutable item persistence.
pub trait YakStorage {
    /// Create a new item.
    fn add(&mut self, name: &str) -> Result<(), YakError>;

    /// List all items.
    fn list(&self) -> Result<Vec<Yak>, YakError>;

    /// Get an item by name.
    fn get(&self, name: &str) -> Result<Option<Yak>, YakError>;

    /// Set an item's state.
    fn update_state(&mut self, name: &str, state: YakState) -> Result<(), YakError>;

    /// Set the state of an item and of everything below it.
    fn update_state_recursive(&mut self, name: &str, state: YakState) -> Result<(), YakError>;

    /// Remove an item.
    fn remove(&mut self, name: &str) -> Result<(), YakError>;

    /// Set an item's context.
    fn set_context(&mut self, name: &str, context: &str) -> Result<(), YakError>;

    /// Read an item's context.
    fn get_context(&self, name: &str) -> Result<String, YakError>;

    /// Rename an item.
    fn rename(&mut self, old_name: &str, new_name: &str) -> Result<(), YakError>;

    /// Resolve a search term to a unique item name, if any.
    fn find_yak(&self, search_term: &str) -> Result<Option<String>, YakError>;

    /// Convert stored done markers to explicit states.
    fn migrate_done_to_state(&mut self) -> Result<(), YakError>;
}

} // verus!
