//! Boundary types shared with the storage collaborator: the opaque manifest
//! handle, shell-safe artifact names, and single-line index records.

use vstd::prelude::*;

verus! {

/// Opaque handle identifying a backup's manifest object in external storage.
/// The core stores and compares it but never interprets its content.
pub type FileHandle = String;

/// True when `c` may appear anywhere in a shell-safe name: ASCII
/// alphanumerics and the separators `.`, `_`, `-`.
pub open spec fn shell_safe_char(c: char) -> bool {
    ('a' <= c && c <= 'z') || ('A' <= c && c <= 'Z') || ('0' <= c && c <= '9') || c == '.'
        || c == '_' || c == '-'
}

/// True when `s` is safe to use as a file or command-line component: 1 to 127
/// characters, all from the shell-safe set, starting with an alphanumeric.
pub open spec fn shell_safe(s: Seq<char>) -> bool {
    &&& 1 <= s.len() <= 127
    &&& forall|i: int| 0 <= i < s.len() ==> shell_safe_char(#[trigger] s[i])
    &&& s[0] != '.' && s[0] != '_' && s[0] != '-'
}

/// A string validated to be safe for use as a file name or command-line
/// component: no control characters, path separators, or shell metacharacters.
pub struct ShellSafeName {
    name: String,
}

impl View for ShellSafeName {
    type V = Seq<char>;

    closed spec fn view(&self) -> Seq<char> {
        self.name@
    }
}

impl ShellSafeName {
    /// Every constructed name satisfies the shell-safety predicate.
    pub open spec fn wf(&self) -> bool {
        shell_safe(self@)
    }

    /// Wraps an already-checked string; callers must have established safety.
    pub fn new_checked(name: String) -> (r: ShellSafeName)
        requires
            shell_safe(name@),
        ensures
            r.wf(),
            r@ == name@,
    {
        ShellSafeName { name }
    }

    /// Validates an arbitrary string, accepting exactly the shell-safe ones.
    pub fn new(name: String) -> (r: Result<ShellSafeName, String>)
        ensures
            r is Ok <==> shell_safe(name@),
            r is Ok ==> r->Ok_0.wf() && r->Ok_0@ == name@,
    {
        let n = name.as_str().unicode_len();
        if n < 1 || n > 127 {
            return Err(name);
        }
        let c0 = name.as_str().get_char(0);
        if c0 == '.' || c0 == '_' || c0 == '-' {
            return Err(name);
        }
        let mut i: usize = 0;
        while i < n
            invariant
                n == name@.len(),
                i <= n,
                forall|k: int| 0 <= k < i ==> shell_safe_char(#[trigger] name@[k]),
            decreases n - i,
        {
            let c = name.as_str().get_char(i);
            let ok = ('a' <= c && c <= 'z') || ('A' <= c && c <= 'Z') || ('0' <= c && c <= '9')
                || c == '.' || c == '_' || c == '-';
            if !ok {
                return Err(name);
            }
            i += 1;
        }
        Ok(ShellSafeName { name })
    }

    /// The validated name as a plain string slice.
    pub fn as_str(&self) -> (r: &str)
        ensures
            r@ == self@,
    {
        self.name.as_str()
    }
}

/// True when `s` holds no line break, so it can stand as one physical line of
/// an append-only textual index.
pub open spec fn single_line(s: Seq<char>) -> bool {
    forall|i: int| 0 <= i < s.len() ==> #[trigger] s[i] != '\n' && s[i] != '\r'
}

/// One physical line of a textual index: a string with no embedded line break.
pub struct TextLine {
    line: String,
}

impl View for TextLine {
    type V = Seq<char>;

    closed spec fn view(&self) -> Seq<char> {
        self.line@
    }
}

impl TextLine {
    /// Every constructed line holds no line break.
    pub open spec fn wf(&self) -> bool {
        single_line(self@)
    }

    /// Wraps an already-checked string; callers must have established that it
    /// holds no line break.
    pub fn new_checked(line: String) -> (r: TextLine)
        requires
            single_line(line@),
        ensures
            r.wf(),
            r@ == line@,
    {
        TextLine { line }
    }

    /// Validates an arbitrary string, accepting exactly the break-free ones.
    pub fn new(line: String) -> (r: Result<TextLine, String>)
        ensures
            r is Ok <==> single_line(line@),
            r is Ok ==> r->Ok_0.wf() && r->Ok_0@ == line@,
    {
        let n = line.as_str().unicode_len();
        let mut i: usize = 0;
        while i < n
            invariant
                n == line@.len(),
                i <= n,
                forall|k: int| 0 <= k < i ==> #[trigger] line@[k] != '\n' && line@[k] != '\r',
            decreases n - i,
        {
            let c = line.as_str().get_char(i);
            if c == '\n' || c == '\r' {
                return Err(line);
            }
            i += 1;
        }
        Ok(TextLine { line })
    }

    /// The line's content as a plain string slice.
    pub fn as_str(&self) -> (r: &str)
        ensures
            r@ == self@,
    {
        self.line.as_str()
    }
}

} // verus!
