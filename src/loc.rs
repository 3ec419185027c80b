//! Source positions and ranges, with the "omitted means same as the previous
//! position" rule of the document format.
use vstd::prelude::*;
use vstd::string::StringSliceAdditionalSpecFns;

use crate::error::DecodeError;
use crate::event::{is_start, key_is, skip_value, value_end, Event};
use crate::intern::{extends, intern_spec, FileTable};

verus! {

/// A resolved source position. File names are handles into the decode's
/// file table; `included_from` is the chain of including files, innermost
/// first.
#[derive(Debug)]
pub struct BareSourceLocation {
    pub offset: Option<u32>,
    pub file: Option<usize>,
    pub line: Option<u32>,
    pub col: Option<u32>,
    pub tok_len: Option<u32>,
    pub included_from: Vec<Option<usize>>,
}

/// The mathematical value of a [`BareSourceLocation`].
pub struct LocV {
    pub offset: Option<u32>,
    pub file: Option<usize>,
    pub line: Option<u32>,
    pub col: Option<u32>,
    pub tok_len: Option<u32>,
    pub included_from: Seq<Option<usize>>,
}

impl View for BareSourceLocation {
    type V = LocV;

    open spec fn view(&self) -> LocV {
        LocV {
            offset: self.offset,
            file: self.file,
            line: self.line,
            col: self.col,
            tok_len: self.tok_len,
            included_from: self.included_from@,
        }
    }
}

/// The position before any has been read: every field unknown.
pub open spec fn empty_loc() -> LocV {
    LocV {
        offset: None,
        file: None,
        line: None,
        col: None,
        tok_len: None,
        included_from: Seq::empty(),
    }
}

/// A `{begin, end}` pair of positions.
#[derive(Debug)]
pub struct SourceRange {
    pub begin: BareSourceLocation,
    pub end: BareSourceLocation,
}

/// The fields that one position object actually holds; `None` is an omitted
/// field.
pub struct PosFields {
    pub offset: Option<u32>,
    pub file: Option<usize>,
    pub line: Option<u32>,
    pub col: Option<u32>,
    pub tok_len: Option<u32>,
    pub included_from: Option<Vec<Option<usize>>>,
}

pub struct PosFieldsV {
    pub offset: Option<u32>,
    pub file: Option<usize>,
    pub line: Option<u32>,
    pub col: Option<u32>,
    pub tok_len: Option<u32>,
    pub included_from: Option<Seq<Option<usize>>>,
}

impl View for PosFields {
    type V = PosFieldsV;

    open spec fn view(&self) -> PosFieldsV {
        PosFieldsV {
            offset: self.offset,
            file: self.file,
            line: self.line,
            col: self.col,
            tok_len: self.tok_len,
            included_from: match self.included_from {
                Some(c) => Some(c@),
                None => None,
            },
        }
    }
}

pub open spec fn no_fields() -> PosFieldsV {
    PosFieldsV { offset: None, file: None, line: None, col: None, tok_len: None, included_from: None }
}

pub open spec fn or_else<A>(present: Option<A>, previous: Option<A>) -> Option<A> {
    if present is Some {
        present
    } else {
        previous
    }
}

/// A position read from the document: each field present there is taken,
/// each omitted field is the cursor's.
pub open spec fn resolve(p: PosFieldsV, cursor: LocV) -> LocV {
    LocV {
        offset: or_else(p.offset, cursor.offset),
        file: or_else(p.file, cursor.file),
        line: or_else(p.line, cursor.line),
        col: or_else(p.col, cursor.col),
        tok_len: or_else(p.tok_len, cursor.tok_len),
        included_from: match p.included_from {
            Some(c) => c,
            None => cursor.included_from,
        },
    }
}

/// The state that runs through one decode: the file table and the most
/// recently resolved position.
pub struct Cx {
    pub files: Seq<Seq<u8>>,
    pub cursor: LocV,
}

/// The number at `i`, when it is one that fits in 32 bits.
pub open spec fn u32_at(s: Seq<Event>, i: int) -> Option<u32> {
    if 0 <= i < s.len() {
        match s[i] {
            Event::Num(n) => if n <= u32::MAX { Some(n as u32) } else { None },
            _ => None,
        }
    } else {
        None
    }
}

/// Reads the fields of an `includedFrom` object from `i` (after its `{`) to
/// its `}`. Returns the chain of file handles, innermost first, the position
/// after the object and the file table.
pub open spec fn chain_fields(
    s: Seq<Event>,
    i: int,
    file: Option<usize>,
    outer: Seq<Option<usize>>,
    files: Seq<Seq<u8>>,
) -> Result<(Seq<Option<usize>>, int, Seq<Seq<u8>>), DecodeError>
    decreases s.len() - i,
{
    if i < 0 || i >= s.len() {
        Err(DecodeError::MalformedDocument)
    } else {
        match s[i] {
            Event::ObjectEnd => Ok((seq![file] + outer, i + 1, files)),
            Event::Key(k) => {
                if k@ == "file".spec_bytes() {
                    if i + 1 < s.len() && s[i + 1] is Str {
                        let (files2, h) = intern_spec(files, s[i + 1]->Str_0@);
                        chain_fields(s, i + 2, Some(h), outer, files2)
                    } else {
                        Err(DecodeError::MalformedLocation)
                    }
                } else if k@ == "includedFrom".spec_bytes() {
                    if i + 1 < s.len() && s[i + 1] is ObjectStart {
                        match chain_fields(s, i + 2, None, Seq::empty(), files) {
                            Ok((c, next, files2)) => if i < next <= s.len() {
                                chain_fields(s, next, file, c, files2)
                            } else {
                                Err(DecodeError::MalformedDocument)
                            },
                            Err(e) => Err(e),
                        }
                    } else {
                        Err(DecodeError::MalformedLocation)
                    }
                } else {
                    match value_end(s, i + 1, 0) {
                        Some(next) => if i < next <= s.len() {
                            chain_fields(s, next, file, outer, files)
                        } else {
                            Err(DecodeError::MalformedDocument)
                        },
                        None => Err(DecodeError::MalformedDocument),
                    }
                }
            },
            _ => Err(DecodeError::MalformedDocument),
        }
    }
}


/// Reads the fields of one position object from `i` (after its `{`) to its
/// `}`, interning file names on the way.
pub open spec fn pos_fields(
    s: Seq<Event>,
    i: int,
    p: PosFieldsV,
    files: Seq<Seq<u8>>,
) -> Result<(PosFieldsV, int, Seq<Seq<u8>>), DecodeError>
    decreases s.len() - i,
{
    if i < 0 || i >= s.len() {
        Err(DecodeError::MalformedDocument)
    } else {
        match s[i] {
            Event::ObjectEnd => Ok((p, i + 1, files)),
            Event::Key(k) => {
                if k@ == "offset".spec_bytes() {
                    match u32_at(s, i + 1) {
                        Some(v) => pos_fields(s, i + 2, PosFieldsV { offset: Some(v), ..p }, files),
                        None => Err(DecodeError::MalformedLocation),
                    }
                } else if k@ == "line".spec_bytes() {
                    match u32_at(s, i + 1) {
                        Some(v) => pos_fields(s, i + 2, PosFieldsV { line: Some(v), ..p }, files),
                        None => Err(DecodeError::MalformedLocation),
                    }
                } else if k@ == "col".spec_bytes() {
                    match u32_at(s, i + 1) {
                        Some(v) => pos_fields(s, i + 2, PosFieldsV { col: Some(v), ..p }, files),
                        None => Err(DecodeError::MalformedLocation),
                    }
                } else if k@ == "tokLen".spec_bytes() {
                    match u32_at(s, i + 1) {
                        Some(v) => pos_fields(s, i + 2, PosFieldsV { tok_len: Some(v), ..p }, files),
                        None => Err(DecodeError::MalformedLocation),
                    }
                } else if k@ == "file".spec_bytes() {
                    if i + 1 < s.len() && s[i + 1] is Str {
                        let (files2, h) = intern_spec(files, s[i + 1]->Str_0@);
                        pos_fields(s, i + 2, PosFieldsV { file: Some(h), ..p }, files2)
                    } else {
                        Err(DecodeError::MalformedLocation)
                    }
                } else if k@ == "includedFrom".spec_bytes() {
                    if i + 1 < s.len() && s[i + 1] is ObjectStart {
                        match chain_fields(s, i + 2, None, Seq::empty(), files) {
                            Ok((c, next, files2)) => if i < next <= s.len() {
                                pos_fields(s, next, PosFieldsV { included_from: Some(c), ..p }, files2)
                            } else {
                                Err(DecodeError::MalformedDocument)
                            },
                            Err(e) => Err(e),
                        }
                    } else {
                        Err(DecodeError::MalformedLocation)
                    }
                } else {
                    match value_end(s, i + 1, 0) {
                        Some(next) => if i < next <= s.len() {
                            pos_fields(s, next, p, files)
                        } else {
                            Err(DecodeError::MalformedDocument)
                        },
                        None => Err(DecodeError::MalformedDocument),
                    }
                }
            },
            _ => Err(DecodeError::MalformedDocument),
        }
    }
}

/// Decodes the position object at `i`: its omitted fields come from the
/// cursor, and the result becomes the new cursor.
pub open spec fn position(s: Seq<Event>, i: int, cx: Cx) -> Result<(LocV, int, Cx), DecodeError> {
    if 0 <= i < s.len() && s[i] is ObjectStart {
        match pos_fields(s, i + 1, no_fields(), cx.files) {
            Ok((p, next, files)) => {
                let l = resolve(p, cx.cursor);
                Ok((l, next, Cx { files, cursor: l }))
            },
            Err(e) => Err(e),
        }
    } else {
        Err(DecodeError::MalformedLocation)
    }
}

/// Reads the fields of a range object from `i` (after its `{`) to its `}`.
/// Both ends are required; each is decoded against the cursor in document
/// order.
pub open spec fn range_fields(
    s: Seq<Event>,
    i: int,
    begin: Option<LocV>,
    end: Option<LocV>,
    cx: Cx,
) -> Result<(LocV, LocV, int, Cx), DecodeError>
    decreases s.len() - i,
{
    if i < 0 || i >= s.len() {
        Err(DecodeError::MalformedDocument)
    } else {
        match s[i] {
            Event::ObjectEnd => if begin is Some && end is Some {
                Ok((begin->0, end->0, i + 1, cx))
            } else {
                Err(DecodeError::MalformedLocation)
            },
            Event::Key(k) => {
                if k@ == "begin".spec_bytes() || k@ == "end".spec_bytes() {
                    match position(s, i + 1, cx) {
                        Ok((l, next, cx2)) => if i < next <= s.len() {
                            if k@ == "begin".spec_bytes() {
                                range_fields(s, next, Some(l), end, cx2)
                            } else {
                                range_fields(s, next, begin, Some(l), cx2)
                            }
                        } else {
                            Err(DecodeError::MalformedDocument)
                        },
                        Err(e) => Err(e),
                    }
                } else {
                    match value_end(s, i + 1, 0) {
                        Some(next) => if i < next <= s.len() {
                            range_fields(s, next, begin, end, cx)
                        } else {
                            Err(DecodeError::MalformedDocument)
                        },
                        None => Err(DecodeError::MalformedDocument),
                    }
                }
            },
            _ => Err(DecodeError::MalformedDocument),
        }
    }
}

pub open spec fn range(s: Seq<Event>, i: int, cx: Cx) -> Result<(LocV, LocV, int, Cx), DecodeError> {
    if 0 <= i < s.len() && s[i] is ObjectStart {
        range_fields(s, i + 1, None, None, cx)
    } else {
        Err(DecodeError::MalformedLocation)
    }
}

/// Omitted fields come from the position decoded just before, wherever it
/// stands in the document: once a position is decoded it is the cursor, so
/// the next position whose own fields hold no `file` (or no `line`) resolves
/// to the file (or line) of the first, and keeps every field it does hold.
pub proof fn lemma_omitted_field_inherited(
    s: Seq<Event>,
    i: int,
    j: int,
    cx: Cx,
    first: LocV,
    n1: int,
    cx1: Cx,
    second: LocV,
    n2: int,
    cx2: Cx,
    own: PosFieldsV,
    n3: int,
    files: Seq<Seq<u8>>,
)
    requires
        position(s, i, cx) == Ok::<(LocV, int, Cx), DecodeError>((first, n1, cx1)),
        position(s, j, cx1) == Ok::<(LocV, int, Cx), DecodeError>((second, n2, cx2)),
        pos_fields(s, j + 1, no_fields(), cx1.files) == Ok::<(PosFieldsV, int, Seq<Seq<u8>>), DecodeError>((own, n3, files)),
    ensures
        own.file is None ==> second.file == first.file,
        own.line is None ==> second.line == first.line,
        own.file is Some ==> second.file == own.file,
        own.offset is Some ==> second.offset == own.offset,
        cx2.cursor == second,
{
}

/// The number at `i`, when it fits in 32 bits.
fn read_u32(s: &Vec<Event>, i: usize) -> (r: Option<u32>)
    ensures
        r == u32_at(s@, i as int),
{
    if i < s.len() {
        match &s[i] {
            Event::Num(n) => if *n <= u32::MAX as u64 { Some(*n as u32) } else { None },
            _ => None,
        }
    } else {
        None
    }
}

/// The text at `i`, when it is a string.
fn read_str(s: &Vec<Event>, i: usize) -> (r: Option<&Vec<u8>>)
    ensures
        match r {
            Some(t) => i < s@.len() && s@[i as int] == Event::Str(*t),
            None => !(i < s@.len() && s@[i as int] is Str),
        },
{
    if i < s.len() {
        match &s[i] {
            Event::Str(t) => Some(t),
            _ => None,
        }
    } else {
        None
    }
}

/// Executes [`chain_fields`].
fn read_chain(
    s: &Vec<Event>,
    i: usize,
    files: &mut FileTable,
) -> (r: Result<(Vec<Option<usize>>, usize), DecodeError>)
    requires
        old(files).wf(),
    ensures
        final(files).wf(),
        extends(old(files)@, final(files)@),
        match (r, chain_fields(s@, i as int, None, Seq::empty(), old(files)@)) {
            (Ok((c, n)), Ok((cv, nv, fv))) => c@ == cv && n == nv && final(files)@ == fv && i < n <= s@.len(),
            (Err(e), Err(ev)) => e == ev,
            _ => false,
        },
    decreases s@.len() - i,
{
    let ghost goal = chain_fields(s@, i as int, None, Seq::empty(), old(files)@);
    let mut k: usize = i;
    let mut file: Option<usize> = None;
    let mut outer: Vec<Option<usize>> = Vec::new();
    loop
        invariant
            i <= k,
            files.wf(),
            extends(old(files)@, files@),
            chain_fields(s@, k as int, file, outer@, files@) == goal,
            goal == chain_fields(s@, i as int, None, Seq::empty(), old(files)@),
        decreases s@.len() - k,
    {
        if k >= s.len() {
            return Err(DecodeError::MalformedDocument);
        }
        match &s[k] {
            Event::ObjectEnd => {
                let ghost rest = outer@;
                let mut c: Vec<Option<usize>> = Vec::new();
                c.push(file);
                c.append(&mut outer);
                assert(c@ =~= seq![file] + rest);
                return Ok((c, k + 1));
            },
            Event::Key(key) => {
                if key_is(key, "file") {
                    match read_str(s, k + 1) {
                        Some(t) => {
                            let h = files.intern(t);
                            file = Some(h);
                            k = k + 2;
                        },
                        None => {
                            return Err(DecodeError::MalformedLocation);
                        },
                    }
                } else if key_is(key, "includedFrom") {
                    if !is_start(s, k + 1, false) {
                        return Err(DecodeError::MalformedLocation);
                    }
                    match read_chain(s, k + 2, files) {
                        Ok((c, next)) => {
                            outer = c;
                            k = next;
                        },
                        Err(e) => {
                            return Err(e);
                        },
                    }
                } else {
                    match skip_value(s, k + 1) {
                        Some(next) => {
                            k = next;
                        },
                        None => {
                            return Err(DecodeError::MalformedDocument);
                        },
                    }
                }
            },
            _ => {
                return Err(DecodeError::MalformedDocument);
            },
        }
    }
}


fn copy_chain(c: &Vec<Option<usize>>) -> (r: Vec<Option<usize>>)
    ensures
        r@ == c@,
{
    let mut r: Vec<Option<usize>> = Vec::new();
    let mut k: usize = 0;
    while k < c.len()
        invariant
            0 <= k <= c@.len(),
            r@ == c@.subrange(0, k as int),
        decreases c.len() - k,
    {
        r.push(c[k]);
        k = k + 1;
        assert(r@ =~= c@.subrange(0, k as int));
    }
    assert(c@.subrange(0, c@.len() as int) =~= c@);
    r
}

impl BareSourceLocation {
    /// A copy of this position.
    pub fn duplicate(&self) -> (r: BareSourceLocation)
        ensures
            r@ == self@,
    {
        BareSourceLocation {
            offset: self.offset,
            file: self.file,
            line: self.line,
            col: self.col,
            tok_len: self.tok_len,
            included_from: copy_chain(&self.included_from),
        }
    }
}

/// The running state of one decode: the file table and the location cursor.
pub struct Context {
    pub files: FileTable,
    pub cursor: BareSourceLocation,
}

impl View for Context {
    type V = Cx;

    open spec fn view(&self) -> Cx {
        Cx { files: self.files@, cursor: self.cursor@ }
    }
}

impl Context {
    pub open spec fn wf(&self) -> bool {
        self.files.wf()
    }

    /// A fresh context: no file seen, every cursor field unknown.
    pub fn new() -> (r: Context)
        ensures
            r.wf(),
            r@.files == Seq::<Seq<u8>>::empty(),
            r@.cursor == empty_loc(),
    {
        let r = Context {
            files: FileTable::new(),
            cursor: BareSourceLocation {
                offset: None,
                file: None,
                line: None,
                col: None,
                tok_len: None,
                included_from: Vec::new(),
            },
        };
        assert(r@.cursor.included_from =~= Seq::<Option<usize>>::empty());
        r
    }
}

/// Decodes the position object at `i` against the context's cursor, and
/// makes the result the new cursor.
pub fn read_position(
    s: &Vec<Event>,
    i: usize,
    cx: &mut Context,
) -> (r: Result<(BareSourceLocation, usize), DecodeError>)
    requires
        old(cx).wf(),
    ensures
        final(cx).wf(),
        extends(old(cx)@.files, final(cx)@.files),
        match (r, position(s@, i as int, old(cx)@)) {
            (Ok((l, n)), Ok((lv, nv, cv))) => l@ == lv && n == nv && final(cx)@ == cv && i < n <= s@.len(),
            (Err(e), Err(ev)) => e == ev,
            _ => false,
        },
{
    if i >= s.len() || !is_start(s, i, false) {
        return Err(DecodeError::MalformedLocation);
    }
    let ghost goal = pos_fields(s@, i + 1, no_fields(), old(cx)@.files);
    let mut p = PosFields {
        offset: None,
        file: None,
        line: None,
        col: None,
        tok_len: None,
        included_from: None,
    };
    let mut k: usize = i + 1;
    loop
        invariant
            i < k,
            i < s@.len(),
            s@[i as int] is ObjectStart,
            cx.wf(),
            extends(old(cx)@.files, cx@.files),
            cx@.cursor == old(cx)@.cursor,
            pos_fields(s@, k as int, p@, cx@.files) == goal,
            goal == pos_fields(s@, i + 1, no_fields(), old(cx)@.files),
        decreases s@.len() - k,
    {
        if k >= s.len() {
            return Err(DecodeError::MalformedDocument);
        }
        match &s[k] {
            Event::ObjectEnd => {
                let l = BareSourceLocation {
                    offset: if p.offset.is_some() { p.offset } else { cx.cursor.offset },
                    file: if p.file.is_some() { p.file } else { cx.cursor.file },
                    line: if p.line.is_some() { p.line } else { cx.cursor.line },
                    col: if p.col.is_some() { p.col } else { cx.cursor.col },
                    tok_len: if p.tok_len.is_some() { p.tok_len } else { cx.cursor.tok_len },
                    included_from: match &p.included_from {
                        Some(c) => copy_chain(c),
                        None => copy_chain(&cx.cursor.included_from),
                    },
                };
                cx.cursor = l.duplicate();
                return Ok((l, k + 1));
            },
            Event::Key(key) => {
                if key_is(key, "offset") {
                    match read_u32(s, k + 1) {
                        Some(v) => { p.offset = Some(v); },
                        None => { return Err(DecodeError::MalformedLocation); },
                    }
                    k = k + 2;
                } else if key_is(key, "line") {
                    match read_u32(s, k + 1) {
                        Some(v) => { p.line = Some(v); },
                        None => { return Err(DecodeError::MalformedLocation); },
                    }
                    k = k + 2;
                } else if key_is(key, "col") {
                    match read_u32(s, k + 1) {
                        Some(v) => { p.col = Some(v); },
                        None => { return Err(DecodeError::MalformedLocation); },
                    }
                    k = k + 2;
                } else if key_is(key, "tokLen") {
                    match read_u32(s, k + 1) {
                        Some(v) => { p.tok_len = Some(v); },
                        None => { return Err(DecodeError::MalformedLocation); },
                    }
                    k = k + 2;
                } else if key_is(key, "file") {
                    match read_str(s, k + 1) {
                        Some(t) => {
                            let h = cx.files.intern(t);
                            p.file = Some(h);
                            k = k + 2;
                        },
                        None => { return Err(DecodeError::MalformedLocation); },
                    }
                } else if key_is(key, "includedFrom") {
                    if !is_start(s, k + 1, false) {
                        return Err(DecodeError::MalformedLocation);
                    }
                    match read_chain(s, k + 2, &mut cx.files) {
                        Ok((c, next)) => {
                            p.included_from = Some(c);
                            k = next;
                        },
                        Err(e) => { return Err(e); },
                    }
                } else {
                    match skip_value(s, k + 1) {
                        Some(next) => { k = next; },
                        None => { return Err(DecodeError::MalformedDocument); },
                    }
                }
            },
            _ => {
                return Err(DecodeError::MalformedDocument);
            },
        }
    }
}

/// Decodes the range object at `i`; both ends go through the cursor in
/// document order.
pub fn read_range(
    s: &Vec<Event>,
    i: usize,
    cx: &mut Context,
) -> (r: Result<(SourceRange, usize), DecodeError>)
    requires
        old(cx).wf(),
    ensures
        final(cx).wf(),
        extends(old(cx)@.files, final(cx)@.files),
        match (r, range(s@, i as int, old(cx)@)) {
            (Ok((g, n)), Ok((bv, ev, nv, cv))) => g.begin@ == bv && g.end@ == ev && n == nv && final(cx)@ == cv
                && i < n <= s@.len(),
            (Err(e), Err(ev)) => e == ev,
            _ => false,
        },
{
    if i >= s.len() || !is_start(s, i, false) {
        return Err(DecodeError::MalformedLocation);
    }
    let ghost goal = range_fields(s@, i + 1, None, None, old(cx)@);
    let mut begin: Option<BareSourceLocation> = None;
    let mut end: Option<BareSourceLocation> = None;
    let mut k: usize = i + 1;
    loop
        invariant
            i < k,
            i < s@.len(),
            s@[i as int] is ObjectStart,
            cx.wf(),
            extends(old(cx)@.files, cx@.files),
            range_fields(
                s@,
                k as int,
                match begin { Some(b) => Some(b@), None => None },
                match end { Some(e) => Some(e@), None => None },
                cx@,
            ) == goal,
            goal == range_fields(s@, i + 1, None, None, old(cx)@),
        decreases s@.len() - k,
    {
        if k >= s.len() {
            return Err(DecodeError::MalformedDocument);
        }
        match &s[k] {
            Event::ObjectEnd => {
                match (begin, end) {
                    (Some(b), Some(e)) => {
                        return Ok((SourceRange { begin: b, end: e }, k + 1));
                    },
                    _ => {
                        return Err(DecodeError::MalformedLocation);
                    },
                }
            },
            Event::Key(key) => {
                let is_begin = key_is(key, "begin");
                if is_begin || key_is(key, "end") {
                    match read_position(s, k + 1, cx) {
                        Ok((l, next)) => {
                            if is_begin {
                                begin = Some(l);
                            } else {
                                end = Some(l);
                            }
                            k = next;
                        },
                        Err(e) => { return Err(e); },
                    }
                } else {
                    match skip_value(s, k + 1) {
                        Some(next) => { k = next; },
                        None => { return Err(DecodeError::MalformedDocument); },
                    }
                }
            },
            _ => {
                return Err(DecodeError::MalformedDocument);
            },
        }
    }
}

} // verus!
