use vstd::prelude::*;

verus! {

/// A position in a `FileSet`.
///
/// The value 0 is the invalid position; a file added to a set covers the positions
/// `base ..= base + size`, where `base` is at least 1.
#[derive(Debug, Clone, Copy, PartialEq, Eq, Structural, PartialOrd, Ord, Hash)]
pub struct Position(pub usize);

impl Position {
    /// True for every position but the invalid position 0.
    #[inline]
    pub fn is_valid(&self) -> (r: bool)
        ensures
            r == (self.0 != 0),
    {
        self.0 != 0
    }
}

/// A position as a reader sees it: file name, byte offset in the file, and 1-based line and
/// column; line 0 marks a position that could not be resolved.
#[derive(Debug)]
pub struct SourcePosition {
    name: String,
    offset: usize,
    pub line: usize,
    pub column: usize,
}

/// The model of a `SourcePosition`.
pub struct SourcePositionView {
    pub name: Seq<char>,
    pub offset: usize,
    pub line: usize,
    pub column: usize,
}

impl View for SourcePosition {
    type V = SourcePositionView;

    closed spec fn view(&self) -> SourcePositionView {
        SourcePositionView {
            name: self.name@,
            offset: self.offset,
            line: self.line,
            column: self.column,
        }
    }
}

/// The character of a decimal digit `d` (0 to 9).
pub open spec fn digit_char(d: nat) -> char {
    (d + 48) as char
}

/// The decimal representation of `n`, as `Display` writes an unsigned integer.
pub open spec fn decimal(n: nat) -> Seq<char>
    decreases n,
{
    if n < 10 {
        seq![digit_char(n)]
    } else {
        decimal(n / 10).push(digit_char(n % 10))
    }
}

/// The text `name:line:column`.
pub open spec fn position_text(name: Seq<char>, line: nat, column: nat) -> Seq<char> {
    name + seq![':'] + decimal(line) + seq![':'] + decimal(column)
}

/// The text of the decimal digit `d`.
fn digit_text(d: usize) -> (r: &'static str)
    requires
        d < 10,
    ensures
        r@ == seq![digit_char(d as nat)],
{
    proof {
        reveal_strlit("0");
        reveal_strlit("1");
        reveal_strlit("2");
        reveal_strlit("3");
        reveal_strlit("4");
        reveal_strlit("5");
        reveal_strlit("6");
        reveal_strlit("7");
        reveal_strlit("8");
        reveal_strlit("9");
    }
    match d {
        0 => "0",
        1 => "1",
        2 => "2",
        3 => "3",
        4 => "4",
        5 => "5",
        6 => "6",
        7 => "7",
        8 => "8",
        _ => "9",
    }
}

/// Appends the decimal representation of `n` to `s`.
fn push_decimal(s: &mut String, n: usize)
    ensures
        final(s)@ == old(s)@ + decimal(n as nat),
    decreases n,
{
    if n >= 10 {
        push_decimal(s, n / 10);
    }
    s.append(digit_text(n % 10));
    proof {
        if n >= 10 {
            assert(old(s)@ + decimal((n / 10) as nat) + seq![digit_char((n % 10) as nat)]
                =~= old(s)@ + decimal(n as nat));
        } else {
            assert(old(s)@ + seq![digit_char((n % 10) as nat)] =~= old(s)@ + decimal(n as nat));
        }
    }
}

impl SourcePosition {
    /// A source position is valid when it names a line.
    #[inline]
    pub fn is_valid(&self) -> (r: bool)
        ensures
            r == (self@.line > 0),
    {
        self.line > 0
    }

    /// The display text: `name:line:column` for a valid position, the empty text otherwise.
    pub fn to_string(&self) -> (r: String)
        ensures
            r@ == (if self@.line > 0 {
                position_text(self@.name, self@.line as nat, self@.column as nat)
            } else {
                Seq::<char>::empty()
            }),
    {
        if self.is_valid() {
            let mut r = String::new();
            r.append(self.name.as_str());
            r.append(":");
            push_decimal(&mut r, self.line);
            r.append(":");
            push_decimal(&mut r, self.column);
            proof {
                reveal_strlit(":");
                assert(r@ =~= position_text(self@.name, self@.line as nat, self@.column as nat));
            }
            r
        } else {
            String::new()
        }
    }
}

impl Default for SourcePosition {
    fn default() -> (r: Self)
        ensures
            r@ == (SourcePositionView { name: Seq::empty(), offset: 0, line: 0, column: 0 }),
    {
        SourcePosition { name: String::new(), offset: 0, line: 0, column: 0 }
    }
}

impl PartialEq for SourcePosition {
    fn eq(&self, other: &Self) -> (r: bool) {
        self.name == other.name && self.offset == other.offset && self.line == other.line
            && self.column == other.column
    }
}

impl vstd::std_specs::cmp::PartialEqSpecImpl for SourcePosition {
    open spec fn obeys_eq_spec() -> bool {
        true
    }

    open spec fn eq_spec(&self, other: &SourcePosition) -> bool {
        self@ == other@
    }
}

impl Eq for SourcePosition {
}

/// The model of a `File`: its name, first position in the set, size in bytes, and the
/// offsets at which its known lines start.
pub struct FileView {
    pub name: Seq<char>,
    pub base: usize,
    pub size: usize,
    pub lines: Seq<usize>,
}

impl FileView {
    /// The line table starts at offset 0, increases strictly and stays within the file, and
    /// every position of the file is a `usize`.
    pub open spec fn wf(self) -> bool {
        &&& self.lines.len() >= 1
        &&& self.lines[0] == 0
        &&& forall|i: int, j: int|
            0 <= i < j < self.lines.len() ==> #[trigger] self.lines[i] < #[trigger] self.lines[j]
        &&& forall|i: int| 0 <= i < self.lines.len() ==> #[trigger] self.lines[i] <= self.size
        &&& self.base + self.size < usize::MAX
    }

    /// True when the position `p` lies in the file.
    pub open spec fn contains(self, p: usize) -> bool {
        self.base <= p <= self.base + self.size
    }

    /// True when `k` is the 1-based number of the line that holds `offset`: the `k`-th line
    /// start is at or before `offset`, and the next one, if any, after it.
    pub open spec fn is_line_of(self, offset: int, k: int) -> bool {
        &&& 1 <= k <= self.lines.len()
        &&& self.lines[k - 1] <= offset
        &&& (k == self.lines.len() || offset < self.lines[k])
    }

    /// The 1-based number of the line that holds `offset`.
    pub open spec fn line_of(self, offset: int) -> int {
        choose|k: int| self.is_line_of(offset, k)
    }

    /// The line table after `add_line(offset)`.
    pub open spec fn with_line(self, offset: usize) -> FileView {
        if (self.lines.len() == 0 || self.lines.last() < offset) && offset < self.size {
            FileView { lines: self.lines.push(offset), ..self }
        } else {
            self
        }
    }

    /// What `source_pos` answers for the position `p`.
    pub open spec fn source_pos(self, p: usize) -> SourcePositionView {
        if p == 0 {
            SourcePositionView { name: self.name, offset: 0, line: 0, column: 0 }
        } else {
            let offset = p - self.base;
            let k = self.line_of(offset);
            SourcePositionView {
                name: self.name,
                offset: offset as usize,
                line: k as usize,
                column: (offset - self.lines[k - 1] + 1) as usize,
            }
        }
    }
}

/// In a well-formed line table, each offset of the file lies on exactly one line.
pub proof fn lemma_line_of(f: FileView, offset: int, k: int)
    requires
        f.wf(),
        0 <= offset,
        f.is_line_of(offset, k),
    ensures
        f.line_of(offset) == k,
{
    let c = f.line_of(offset);
    assert(f.is_line_of(offset, c));
    if c < k {
        assert(f.lines[c] <= f.lines[k - 1]);
    } else if k < c {
        assert(f.lines[k] <= f.lines[c - 1]);
    }
}

/// In a well-formed file, every offset from `k` on, where the `k`-th line starts at or
/// before it, lies on some line.
proof fn lemma_line_from(f: FileView, offset: int, k: int)
    requires
        f.wf(),
        1 <= k <= f.lines.len(),
        f.lines[k - 1] <= offset,
    ensures
        f.is_line_of(offset, f.line_of(offset)),
    decreases f.lines.len() - k,
{
    if k < f.lines.len() && f.lines[k] <= offset {
        lemma_line_from(f, offset, k + 1);
    } else {
        assert(f.is_line_of(offset, k));
    }
}

/// Recording a line start after `offset` leaves the source position of `offset` as it was.
pub proof fn lemma_with_line_keeps(f: FileView, x: usize, offset: int)
    requires
        f.wf(),
        0 <= offset < x,
        offset <= f.size,
    ensures
        f.with_line(x).wf(),
        f.with_line(x).source_pos((f.base + offset) as usize) == f.source_pos(
            (f.base + offset) as usize,
        ),
{
    let g = f.with_line(x);
    if g != f {
        let l = g.lines;
        assert forall|i: int, j: int| 0 <= i < j < l.len() implies #[trigger] l[i]
            < #[trigger] l[j] by {
            if j == l.len() - 1 && i < j - 1 {
                assert(l[i] < l[j - 1]);
            }
        }
        lemma_line_from(f, offset, 1);
        let k = f.line_of(offset);
        assert(g.is_line_of(offset, k));
        lemma_line_of(g, offset, k);
    }
}

/// A file of a `FileSet`.
pub struct File {
    name: String,
    size: usize,
    lines: Vec<usize>,
    pub base: usize,
}

impl View for File {
    type V = FileView;

    closed spec fn view(&self) -> FileView {
        FileView { name: self.name@, base: self.base, size: self.size, lines: self.lines@ }
    }
}

/// The number of entries of a sorted `v` that are at most `x`.
fn count_at_most(v: &Vec<usize>, x: usize) -> (r: usize)
    requires
        forall|i: int, j: int| 0 <= i < j < v@.len() ==> #[trigger] v@[i] < #[trigger] v@[j],
    ensures
        r <= v@.len(),
        forall|i: int| 0 <= i < r ==> #[trigger] v@[i] <= x,
        forall|i: int| r <= i < v@.len() ==> #[trigger] v@[i] > x,
{
    let mut lo: usize = 0;
    let mut hi: usize = v.len();
    while lo < hi
        invariant
            lo <= hi <= v@.len(),
            forall|i: int, j: int| 0 <= i < j < v@.len() ==> #[trigger] v@[i] < #[trigger] v@[j],
            forall|i: int| 0 <= i < lo ==> #[trigger] v@[i] <= x,
            forall|i: int| hi <= i < v@.len() ==> #[trigger] v@[i] > x,
        decreases hi - lo,
    {
        let mid = lo + (hi - lo) / 2;
        if v[mid] <= x {
            assert forall|i: int| 0 <= i < mid + 1 implies #[trigger] v@[i] <= x by {
                if i < mid {
                    assert(v@[i] < v@[mid as int]);
                }
            }
            lo = mid + 1;
        } else {
            assert forall|i: int| mid <= i < v@.len() implies #[trigger] v@[i] > x by {
                if i > mid {
                    assert(v@[mid as int] < v@[i]);
                }
            }
            hi = mid;
        }
    }
    lo
}

impl File {
    /// Records that a line starts at `offset`, when that offset lies after the last known
    /// line start and inside the file.
    #[inline]
    pub fn add_line(&mut self, offset: usize)
        ensures
            final(self)@ == old(self)@.with_line(offset),
            old(self)@.wf() ==> final(self)@.wf(),
    {
        if (self.lines.len() == 0 || self.lines[self.lines.len() - 1] < offset) && offset
            < self.size {
            self.lines.push(offset);
            proof {
                let l = self.lines@;
                if old(self)@.wf() {
                    assert forall|i: int, j: int| 0 <= i < j < l.len() implies #[trigger] l[i]
                        < #[trigger] l[j] by {
                        if j == l.len() - 1 && i < j - 1 {
                            assert(l[i] < l[j - 1]);
                        }
                    }
                }
            }
        }
    }

    /// The position of byte `offset` of the file.
    #[inline]
    pub fn to_set_pos(&self, offset: usize) -> (r: Position)
        requires
            self@.wf(),
            offset <= self@.size,
        ensures
            r.0 == self@.base + offset,
    {
        Position(self.base + offset)
    }

    /// The byte offset in the file of the position `p`.
    #[inline]
    pub fn to_file_offset(&self, p: Position) -> (r: usize)
        requires
            self@.contains(p.0),
        ensures
            r == p.0 - self@.base,
    {
        p.0 - self.base
    }

    /// The name, offset, line and column of the position `p`; for the invalid position,
    /// the name with offset, line and column 0.
    pub fn source_pos(&self, p: Position) -> (r: SourcePosition)
        requires
            self@.wf(),
            p.0 == 0 || self@.contains(p.0),
        ensures
            r@ == self@.source_pos(p.0),
    {
        if !p.is_valid() {
            return SourcePosition { name: self.name.clone(), offset: 0, line: 0, column: 0 };
        }
        let offset = p.0 - self.base;
        let mut idx = count_at_most(&self.lines, offset);
        assert(self.lines@[0] <= offset);
        if idx > 0 {
            idx -= 1;
        }
        proof {
            lemma_line_of(self@, offset as int, idx + 1);
        }
        SourcePosition {
            name: self.name.clone(),
            offset,
            line: idx + 1,
            column: offset - self.lines[idx] + 1,
        }
    }
}

/// The model of a `FileSet`: its files in the order they were added, and the base that the
/// next file will get.
pub struct FileSetView {
    pub files: Seq<FileView>,
    pub base: usize,
}

/// The sum of the sizes of `files`.
pub open spec fn total_size(files: Seq<FileView>) -> int
    decreases files.len(),
{
    if files.len() == 0 {
        0
    } else {
        total_size(files.drop_last()) + files.last().size
    }
}

impl FileSetView {
    /// The files are well formed, lie in increasing order without overlap after position 0,
    /// and all lie before `base`.
    pub open spec fn wf(self) -> bool {
        &&& self.base >= 1
        &&& forall|i: int|
            0 <= i < self.files.len() ==> {
                &&& (#[trigger] self.files[i]).wf()
                &&& self.files[i].base >= 1
                &&& self.files[i].base + self.files[i].size < self.base
            }
        &&& forall|i: int, j: int|
            0 <= i < j < self.files.len() ==> #[trigger] self.files[i].base
                + self.files[i].size < #[trigger] self.files[j].base
    }

    /// True when the file at index `i` covers the valid position `p`.
    pub open spec fn holds(self, i: int, p: usize) -> bool {
        &&& p != 0
        &&& 0 <= i < self.files.len()
        &&& self.files[i].contains(p)
    }

    /// What `source_pos` answers: the source position in the file that covers `p`, or
    /// `None` when `p` is invalid or lies in no file.
    pub open spec fn source_pos(self, p: usize) -> Option<SourcePositionView> {
        if exists|i: int| self.holds(i, p) {
            let i = choose|i: int| self.holds(i, p);
            Some(self.files[i].source_pos(p))
        } else {
            None
        }
    }
}

/// No two files of a well-formed set cover the same position.
pub proof fn lemma_unique_file(s: FileSetView, p: usize, i: int, j: int)
    requires
        s.wf(),
        s.holds(i, p),
        s.holds(j, p),
    ensures
        i == j,
{
    if i < j {
        assert(s.files[i].base + s.files[i].size < s.files[j].base);
    } else if j < i {
        assert(s.files[j].base + s.files[j].size < s.files[i].base);
    }
}

/// In a well-formed set, the sizes of the first `k` files, plus one per file, add up to
/// at most the last position of the `k`-th file.
proof fn lemma_total_size_bound(s: FileSetView, k: int)
    requires
        s.wf(),
        1 <= k <= s.files.len(),
    ensures
        total_size(s.files.take(k)) + k <= s.files[k - 1].base + s.files[k - 1].size,
    decreases k,
{
    assert(s.files.take(k).drop_last() =~= s.files.take(k - 1));
    assert(s.files.take(k).last() == s.files[k - 1]);
    assert(s.files[k - 1].wf());
    let t = s.files.take(k);
    assert(total_size(t) == total_size(t.drop_last()) + t.last().size);
    if k == 1 {
        assert(s.files.take(0) =~= Seq::<FileView>::empty());
        assert(total_size(s.files.take(0)) == 0);
    } else {
        lemma_total_size_bound(s, k - 1);
        assert(s.files[k - 2].base + s.files[k - 2].size < s.files[k - 1].base);
    }
}

/// Adding a well-formed file at the base of a well-formed set, and moving the base past
/// it, keeps the set well formed.
proof fn lemma_push_wf(s: FileSetView, size: usize, new_base: usize)
    requires
        s.wf(),
        new_base == s.base + size + 1,
    ensures
        forall|f: FileView|
            f.base == s.base && f.size == size && f.wf() ==> files_set(
                #[trigger] s.files.push(f),
                new_base,
            ).wf(),
{
    assert forall|f: FileView|
        f.base == s.base && f.size == size && f.wf() implies files_set(
            #[trigger] s.files.push(f),
            new_base,
        ).wf() by {
        let t = files_set(s.files.push(f), new_base);
        assert forall|i: int| 0 <= i < t.files.len() implies {
            &&& (#[trigger] t.files[i]).wf()
            &&& t.files[i].base >= 1
            &&& t.files[i].base + t.files[i].size < t.base
        } by {
            if i < s.files.len() {
                assert(t.files[i] == s.files[i]);
            }
        }
        assert forall|i: int, j: int|
            0 <= i < j < t.files.len() implies #[trigger] t.files[i].base + t.files[i].size
            < #[trigger] t.files[j].base by {
            assert(t.files[i] == s.files[i]);
            if j < s.files.len() {
                assert(t.files[j] == s.files[j]);
            }
        }
    }
}

/// Viewing the files of a sequence after a push views the pushed file last.
proof fn lemma_views_push(s: Seq<File>)
    ensures
        forall|x: File| #[trigger] file_views(s.push(x)) == file_views(s).push(x@),
        forall|x: File, y: File| #[trigger] s.push(y).update(s.len() as int, x) == s.push(x),
{
    assert forall|x: File, y: File| #[trigger] s.push(y).update(s.len() as int, x) == s.push(x) by {
        assert(s.push(y).update(s.len() as int, x) =~= s.push(x));
    }
    assert forall|x: File| #[trigger] file_views(s.push(x)) == file_views(s).push(x@) by {
        assert(file_views(s.push(x)) =~= file_views(s).push(x@));
    }
}

/// The models of a sequence of files.
spec fn file_views(s: Seq<File>) -> Seq<FileView> {
    s.map_values(|f: File| f@)
}

/// A set of files that share one space of positions.
pub struct FileSet {
    files: Vec<File>,
    last_touched_file: Option<usize>,
    base: usize,
}

impl View for FileSet {
    type V = FileSetView;

    closed spec fn view(&self) -> FileSetView {
        FileSetView { files: file_views(self.files@), base: self.base }
    }
}

impl FileSet {
    /// The index of the file that the last lookup or addition touched, if any.
    pub closed spec fn last_touched(&self) -> Option<usize> {
        self.last_touched_file
    }

    /// The set is well formed and its cache of the last file looked up names a file.
    pub closed spec fn wf(&self) -> bool {
        &&& self@.wf()
        &&& match self.last_touched_file {
            Some(i) => i < self.files@.len(),
            None => true,
        }
    }

    /// An empty set, whose first file will start at position 1.
    pub fn new() -> (r: Self)
        ensures
            r.wf(),
            r@.files == Seq::<FileView>::empty(),
            r@.base == 1,
            r.last_touched() is None,
    {
        let r = FileSet { files: Vec::new(), last_touched_file: None, base: 1 };
        assert(r@.files =~= Seq::<FileView>::empty());
        r
    }

    /// The sum of the sizes of the files.
    #[inline]
    pub fn len(&self) -> (r: usize)
        requires
            self.wf(),
        ensures
            r == total_size(self@.files),
    {
        let mut sum: usize = 0;
        let mut i: usize = 0;
        let ghost files = self@.files;
        while i < self.files.len()
            invariant
                self.wf(),
                files == self@.files,
                files.len() == self.files@.len(),
                i <= files.len(),
                sum == total_size(files.take(i as int)),
            decreases files.len() - i,
        {
            proof {
                assert(files.take(i + 1).drop_last() =~= files.take(i as int));
                lemma_total_size_bound(files_set(files, self@.base), i + 1);
                assert(files[i as int] == self.files@[i as int]@);
            }
            sum = sum + self.files[i].size;
            i = i + 1;
        }
        assert(files.take(i as int) =~= files);
        sum
    }

    /// Adds a file of `file_size` bytes named `file_name`, placed at the set's next base,
    /// with one line starting at offset 0, and returns it.
    pub fn add_file(&mut self, file_name: String, file_size: usize) -> (r: &mut File)
        requires
            old(self).wf(),
            old(self)@.base + file_size + 1 <= usize::MAX,
        ensures
            r@ == (FileView {
                name: file_name@,
                base: old(self)@.base,
                size: file_size,
                lines: seq![0usize],
            }),
            final(self)@.files == old(self)@.files.push(final(r)@),
            final(self)@.base == old(self)@.base + file_size + 1,
            final(self).last_touched() == Some(old(self)@.files.len() as usize),
            (final(r)@.base == r@.base && final(r)@.size == r@.size && final(r)@.wf() && final(self)@.files == old(self)@.files.push(final(r)@))
                ==> final(self).wf(),
    {
        let file = File { name: file_name, base: self.base, size: file_size, lines: vec![0] };
        assert(file.lines@ =~= seq![0usize]);
        let next_base = self.base + (file_size + 1);
        self.base = next_base;
        let index = self.files.len();
        self.files.push(file);
        self.last_touched_file = Some(index);
        proof {
            lemma_views_push(old(self).files@);
            lemma_push_wf(old(self)@, file_size, next_base);
        }
        &mut self.files[index]
    }

    /// The source position of `p`, looked up in the file that covers it; `None` when `p`
    /// is invalid or lies in no file.
    #[inline]
    pub fn source_pos(&mut self, p: Position) -> (r: Option<SourcePosition>)
        requires
            old(self).wf(),
        ensures
            final(self).wf(),
            final(self)@ == old(self)@,
            match r {
                Some(sp) => old(self)@.source_pos(p.0) == Some(sp@),
                None => old(self)@.source_pos(p.0) is None,
            },
            match r {
                Some(_) => final(self).last_touched() matches Some(i) && old(self)@.holds(
                    i as int,
                    p.0,
                ),
                None => final(self).last_touched() == old(self).last_touched(),
            },
    {
        match self.get_file(p) {
            Some(i) => {
                proof {
                    let s = old(self)@;
                    let j = choose|j: int| s.holds(j, p.0);
                    lemma_unique_file(s, p.0, i as int, j);
                    assert(s.files[i as int] == self.files@[i as int]@);
                }
                Some(self.files[i].source_pos(p))
            },
            None => None,
        }
    }

    /// The index of the file that covers `p`, found through the cache of the last file
    /// looked up or by binary search on the bases.
    fn get_file(&mut self, p: Position) -> (r: Option<usize>)
        requires
            old(self).wf(),
        ensures
            final(self).wf(),
            final(self)@ == old(self)@,
            match r {
                Some(i) => old(self)@.holds(i as int, p.0) && final(self).last_touched() == Some(i),
                None => (!exists|i: int| old(self)@.holds(i, p.0)) && final(self).last_touched()
                    == old(self).last_touched(),
            },
    {
        let ghost s = self@;
        if !p.is_valid() {
            return None;
        }
        let p_val = p.0;
        if let Some(idx) = self.last_touched_file {
            if idx < self.files.len() {
                let f = &self.files[idx];
                assert(s.files[idx as int] == f@);
                if p_val >= f.base && p_val <= f.base + f.size {
                    return Some(idx);
                }
            }
        }
        let mut lo: usize = 0;
        let mut hi: usize = self.files.len();
        while lo < hi
            invariant
                s == self@,
                self.wf(),
                lo <= hi <= s.files.len(),
                s.files.len() == self.files@.len(),
                forall|i: int| 0 <= i < lo ==> #[trigger] s.files[i].base <= p_val,
                forall|i: int| hi <= i < s.files.len() ==> #[trigger] s.files[i].base > p_val,
            decreases hi - lo,
        {
            let mid = lo + (hi - lo) / 2;
            assert(s.files[mid as int] == self.files@[mid as int]@);
            if self.files[mid].base <= p_val {
                assert forall|i: int| 0 <= i < mid + 1 implies #[trigger] s.files[i].base
                    <= p_val by {
                    if i < mid {
                        assert(s.files[i].base + s.files[i].size < s.files[mid as int].base);
                    }
                }
                lo = mid + 1;
            } else {
                assert forall|i: int| mid <= i < s.files.len() implies #[trigger] s.files[i].base
                    > p_val by {
                    if i > mid {
                        assert(s.files[mid as int].base + s.files[mid as int].size
                            < s.files[i].base);
                    }
                }
                hi = mid;
            }
        }
        if lo > 0 {
            let idx = lo - 1;
            let f = &self.files[idx];
            assert(s.files[idx as int] == f@);
            if p_val <= f.base + f.size {
                self.last_touched_file = Some(idx);
                assert(self@ =~= s);
                return Some(idx);
            }
            assert forall|i: int| !s.holds(i, p_val) by {
                if 0 <= i < s.files.len() && i != idx {
                    if i < idx {
                        assert(s.files[i].base + s.files[i].size < s.files[idx as int].base);
                    }
                }
            }
        } else {
            assert forall|i: int| !s.holds(i, p_val) by {
                if 0 <= i < s.files.len() {
                    assert(s.files[i].base > p_val);
                }
            }
        }
        None
    }
}

/// A set model with the given files and base.
pub open spec fn files_set(files: Seq<FileView>, base: usize) -> FileSetView {
    FileSetView { files, base }
}

/// The position of a file offset lies in the file, and converts back to the same offset.
pub proof fn lemma_offset_round_trip(f: FileView, offset: usize)
    requires
        f.wf(),
        offset <= f.size,
    ensures
        f.contains((f.base + offset) as usize),
        (f.base + offset) as usize - f.base == offset,
{
}

/// In a well-formed set, looking up a position of one of its files answers with the source
/// position in that file.
pub proof fn lemma_set_lookup(s: FileSetView, i: int, p: usize)
    requires
        s.wf(),
        0 <= i < s.files.len(),
        s.files[i].contains(p),
    ensures
        s.source_pos(p) == Some(s.files[i].source_pos(p)),
{
    assert(s.files[i].base >= 1);
    assert(s.holds(i, p));
    let j = choose|j: int| s.holds(j, p);
    lemma_unique_file(s, p, i, j);
}

/// The number that a text of decimal digits writes, most significant digit first.
pub open spec fn digits_value(s: Seq<char>) -> int
    decreases s.len(),
{
    if s.len() == 0 {
        0
    } else {
        digits_value(s.drop_last()) * 10 + (s.last() as u32 - 48)
    }
}

/// A digit's character stands for it.
proof fn lemma_digit_char(d: nat)
    requires
        d < 10,
    ensures
        digit_char(d) as u32 == d + 48,
        '0' <= digit_char(d) <= '9',
{
    let u = (d + 48) as u32;
    assert(u == d + 48);
}

/// The decimal text of `n` is made of the digits `0` to `9`, writes `n`, and has no leading
/// zero.
pub proof fn lemma_decimal_writes(n: nat)
    ensures
        decimal(n).len() >= 1,
        forall|i: int| 0 <= i < decimal(n).len() ==> '0' <= #[trigger] decimal(n)[i] <= '9',
        digits_value(decimal(n)) == n,
        decimal(n).len() > 1 ==> decimal(n)[0] != '0',
        n >= 10 ==> decimal(n).len() > 1,
    decreases n,
{
    if n >= 10 {
        lemma_decimal_writes(n / 10);
        let d = decimal(n / 10);
        assert(decimal(n) == d.push(digit_char(n % 10)));
        assert(decimal(n).drop_last() =~= d);
        assert(decimal(n)[0] == d[0]);
        assert forall|i: int| 0 <= i < decimal(n).len() implies '0' <= #[trigger] decimal(n)[i]
            <= '9' by {
            if i < d.len() {
                assert(decimal(n)[i] == d[i]);
            }
        }
        lemma_digit_char(n % 10);
        if n / 10 < 10 {
            lemma_digit_char(n / 10);
            assert(d == seq![digit_char(n / 10)]);
        }
        assert((n / 10) * 10 + n % 10 == n);
        assert(digits_value(decimal(n)) == digits_value(d) * 10 + (n % 10));
    } else {
        lemma_digit_char(n);
        assert(decimal(n).drop_last() =~= Seq::<char>::empty());
        assert(digits_value(decimal(n).drop_last()) == 0);
    }
}

/// Recording a line start at `x` inside the file and after the last one starts a new line
/// there: `x` is then at column 1 of a line one past the old last line, and the positions
/// before `x` stay as they were. Any other `x` leaves the file as it was.
pub proof fn lemma_new_line_at(f: FileView, x: usize)
    requires
        f.wf(),
        f.base >= 1,
        f.lines.len() < usize::MAX,
    ensures
        (f.lines.last() < x && x < f.size) ==> {
            let g = f.with_line(x);
            &&& g.wf()
            &&& g.source_pos((f.base + x) as usize).line == f.lines.len() + 1
            &&& g.source_pos((f.base + x) as usize).column == 1
            &&& forall|o: int|
                0 <= o < x ==> #[trigger] g.source_pos((f.base + o) as usize) == f.source_pos(
                    (f.base + o) as usize,
                )
        },
        !(f.lines.last() < x && x < f.size) ==> f.with_line(x) == f,
{
    if f.lines.last() < x && x < f.size {
        let g = f.with_line(x);
        lemma_with_line_keeps(f, x, 0);
        assert(g.lines == f.lines.push(x));
        assert(g.is_line_of(x as int, g.lines.len() as int));
        lemma_line_of(g, x as int, g.lines.len() as int);
        let sp = g.source_pos((f.base + x) as usize);
        assert(g.wf());
        assert(sp.line == f.lines.len() + 1);
        assert(sp.column == 1);
        assert forall|o: int| 0 <= o < x implies #[trigger] g.source_pos((f.base + o) as usize)
            == f.source_pos((f.base + o) as usize) by {
            lemma_with_line_keeps(f, x, o);
        }
    }
}

} // verus!
