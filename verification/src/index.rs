//! The symbol index as plain values, and the questions semantic tokens ask of
//! it: where a name is defined, what kind of symbol stands there, and which
//! members a type owns.
use crate::encoding::Range;
use crate::legend::{
    TokenType, owner_type_kind, member_kind, member_type_of, last_segment,
    receiver_matches, position_le, is_type_symbol, is_member_symbol, member_token_type,
    range_within, range_contains, matches_receiver_type, SYMBOL_CLASS, SYMBOL_STRUCT,
    SYMBOL_FUNCTION, SYMBOL_METHOD, SYMBOL_OBJECT, SYMBOL_ENUM, SYMBOL_ENUM_MEMBER,
};
use crate::text::{chars_equal, str_chars, chars_to_string};
use crate::cli::text_is;
use crate::legend::last_segment_chars;
use vstd::prelude::*;

verus! {

/// A place in a file: its URI and a range in it.
pub struct Location {
    pub uri: String,
    pub range: Range,
}

/// A symbol that the index recorded in a file.
pub struct SymbolEntry {
    pub name: String,
    /// The LSP symbol kind code.
    pub kind: i32,
    /// The whole declaration.
    pub range: Range,
    /// The declared name.
    pub selection_range: Range,
    /// For an extension function or property, the type it extends; empty otherwise.
    pub extension_receiver: String,
}

/// The symbols of one file.
pub struct FileSymbols {
    pub uri: String,
    pub symbols: Vec<SymbolEntry>,
}

/// Where one name is defined.
pub struct Definitions {
    pub name: String,
    pub locations: Vec<Location>,
}

/// The symbol index: the symbols of each file, and where each name is defined.
pub struct SymbolIndex {
    pub files: Vec<FileSymbols>,
    pub definitions: Vec<Definitions>,
}

pub struct LocationModel {
    pub uri: Seq<char>,
    pub range: Range,
}

pub struct SymbolModel {
    pub name: Seq<char>,
    pub kind: i32,
    pub range: Range,
    pub selection_range: Range,
    pub extension_receiver: Seq<char>,
}

pub struct FileModel {
    pub uri: Seq<char>,
    pub symbols: Seq<SymbolModel>,
}

pub struct DefinitionsModel {
    pub name: Seq<char>,
    pub locations: Seq<LocationModel>,
}

pub struct IndexModel {
    pub files: Seq<FileModel>,
    pub definitions: Seq<DefinitionsModel>,
}

impl View for Location {
    type V = LocationModel;

    open spec fn view(&self) -> LocationModel {
        LocationModel { uri: self.uri@, range: self.range }
    }
}

impl View for SymbolEntry {
    type V = SymbolModel;

    open spec fn view(&self) -> SymbolModel {
        SymbolModel {
            name: self.name@,
            kind: self.kind,
            range: self.range,
            selection_range: self.selection_range,
            extension_receiver: self.extension_receiver@,
        }
    }
}

impl View for FileSymbols {
    type V = FileModel;

    open spec fn view(&self) -> FileModel {
        FileModel { uri: self.uri@, symbols: self.symbols@.map_values(|s: SymbolEntry| s@) }
    }
}

impl View for Definitions {
    type V = DefinitionsModel;

    open spec fn view(&self) -> DefinitionsModel {
        DefinitionsModel { name: self.name@, locations: self.locations@.map_values(|l: Location| l@) }
    }
}

impl View for SymbolIndex {
    type V = IndexModel;

    open spec fn view(&self) -> IndexModel {
        IndexModel {
            files: self.files@.map_values(|f: FileSymbols| f@),
            definitions: self.definitions@.map_values(|d: Definitions| d@),
        }
    }
}

// ─── Lookups ────────────────────────────────────────────────────────────────

/// The locations recorded for `name`: those of its first entry, none without one.
pub open spec fn locations_in(defs: Seq<DefinitionsModel>, name: Seq<char>) -> Seq<LocationModel>
    decreases defs.len(),
{
    if defs.len() == 0 {
        seq![]
    } else if defs[0].name == name {
        defs[0].locations
    } else {
        locations_in(defs.drop_first(), name)
    }
}

/// Where `name` is defined.
pub open spec fn definition_locations(idx: IndexModel, name: Seq<char>) -> Seq<LocationModel> {
    locations_in(idx.definitions, name)
}

/// The symbols recorded for the file `uri`: those of its first entry.
pub open spec fn file_in(files: Seq<FileModel>, uri: Seq<char>) -> Option<FileModel>
    decreases files.len(),
{
    if files.len() == 0 {
        None
    } else if files[0].uri == uri {
        Some(files[0])
    } else {
        file_in(files.drop_first(), uri)
    }
}

/// A question asked of each symbol of a file.
pub enum Query {
    /// A type (class, interface, enum, object or struct) named so.
    TypeNamed(Seq<char>),
    /// A member named so, declared on lines within the range.
    MemberWithin(Seq<char>, Range),
    /// An extension member named so, declared on the receiver type.
    ExtensionFor(Seq<char>, Seq<char>),
    /// A symbol whose name is declared exactly at the range.
    DeclaredAt(Range),
    /// An enum member named so, whose name starts within the range.
    EnumMemberIn(Seq<char>, Range),
}

/// Whether symbol `s` answers `q`.
pub open spec fn answers(q: Query, s: SymbolModel) -> bool {
    match q {
        Query::TypeNamed(name) => s.name == name && owner_type_kind(s.kind),
        Query::MemberWithin(name, owner) => s.name == name && member_kind(s.kind) && s.range.start.line
            >= owner.start.line && s.range.end.line <= owner.end.line,
        Query::ExtensionFor(name, receiver) => s.name == name && member_kind(s.kind) && s.extension_receiver.len()
            > 0 && receiver_matches(s.extension_receiver, receiver),
        Query::DeclaredAt(r) => s.selection_range == r,
        Query::EnumMemberIn(name, owner) => s.kind == SYMBOL_ENUM_MEMBER && s.name == name && position_le(
            owner.start,
            s.selection_range.start,
        ) && position_le(s.selection_range.start, owner.end),
    }
}

/// The first symbol of `syms` that answers `q`.
pub open spec fn first_match(syms: Seq<SymbolModel>, q: Query) -> Option<SymbolModel>
    decreases syms.len(),
{
    if syms.len() == 0 {
        None
    } else if answers(q, syms[0]) {
        Some(syms[0])
    } else {
        first_match(syms.drop_first(), q)
    }
}

/// Whether `name` is defined somewhere as a type (a class, interface, enum,
/// object or struct).
pub open spec fn type_defined(idx: IndexModel, name: Seq<char>) -> bool {
    exists|j: int|
        0 <= j < definition_locations(idx, name).len() && match file_in(
            idx.files,
            (#[trigger] definition_locations(idx, name)[j]).uri,
        ) {
            Some(f) => first_match(f.symbols, Query::TypeNamed(name)) is Some,
            None => false,
        }
}

/// The token type of member `member` of the type owning it, found through
/// the definitions of the type's simple name `leaf`, from location `k` on.
pub open spec fn owner_member_from(idx: IndexModel, locs: Seq<LocationModel>, k: int, leaf: Seq<char>, member: Seq<char>) -> Option<TokenType>
    decreases locs.len() - k,
{
    if k < 0 || k >= locs.len() {
        None
    } else {
        let next = owner_member_from(idx, locs, k + 1, leaf, member);
        match file_in(idx.files, locs[k].uri) {
            None => next,
            Some(f) => match first_match(f.symbols, Query::TypeNamed(leaf)) {
                None => next,
                Some(owner) => match first_match(f.symbols, Query::MemberWithin(member, owner.range)) {
                    Some(sym) => member_type_of(sym.kind),
                    None => next,
                },
            },
        }
    }
}

/// The token type of `member` as a member declared inside the type
/// `receiver_type` (found by its simple name).
pub open spec fn owner_member_type(idx: IndexModel, receiver_type: Seq<char>, member: Seq<char>) -> Option<TokenType> {
    let leaf = last_segment(receiver_type);
    owner_member_from(idx, definition_locations(idx, leaf), 0, leaf, member)
}

/// The token type of `member` as an extension member declared on
/// `receiver_type`, from location `k` of its definitions on.
pub open spec fn extension_member_from(idx: IndexModel, locs: Seq<LocationModel>, k: int, receiver_type: Seq<char>, member: Seq<char>) -> Option<TokenType>
    decreases locs.len() - k,
{
    if k < 0 || k >= locs.len() {
        None
    } else {
        let next = extension_member_from(idx, locs, k + 1, receiver_type, member);
        match file_in(idx.files, locs[k].uri) {
            None => next,
            Some(f) => match first_match(f.symbols, Query::ExtensionFor(member, receiver_type)) {
                Some(sym) => match member_type_of(sym.kind) {
                    Some(t) => Some(t),
                    None => Some(TokenType::Method),
                },
                None => next,
            },
        }
    }
}

/// The token type of `member` as an extension member declared on `receiver_type`.
pub open spec fn extension_member_type(idx: IndexModel, receiver_type: Seq<char>, member: Seq<char>) -> Option<TokenType> {
    extension_member_from(idx, definition_locations(idx, member), 0, receiver_type, member)
}

/// Which kinds of symbol a reference may resolve to.
#[derive(Clone, Copy, Debug, PartialEq, Eq)]
pub enum KindFilter {
    /// Any kind.
    Any,
    /// Classes, interfaces, enums, objects and structs.
    Type,
    /// What a call may name: classes, structs, functions and methods.
    Callable,
    /// Objects only.
    Object,
    /// Enums only.
    Enum,
}

/// Whether a symbol of kind `kind` passes `filter`.
pub open spec fn kind_passes(filter: KindFilter, kind: i32) -> bool {
    match filter {
        KindFilter::Any => true,
        KindFilter::Type => owner_type_kind(kind),
        KindFilter::Callable => kind == SYMBOL_CLASS || kind == SYMBOL_STRUCT || kind == SYMBOL_FUNCTION
            || kind == SYMBOL_METHOD,
        KindFilter::Object => kind == SYMBOL_OBJECT,
        KindFilter::Enum => kind == SYMBOL_ENUM,
    }
}

/// The symbol a name resolves to: its kind, its file and the range of its
/// whole declaration.
pub struct ResolvedReference {
    pub kind: i32,
    pub uri: String,
    pub range: Range,
}

pub struct ResolvedModel {
    pub kind: i32,
    pub uri: Seq<char>,
    pub range: Range,
}

impl View for ResolvedReference {
    type V = ResolvedModel;

    open spec fn view(&self) -> ResolvedModel {
        ResolvedModel { kind: self.kind, uri: self.uri@, range: self.range }
    }
}

/// What `name` resolves to from location `k` of its definitions on: the
/// first location whose file records a symbol declared exactly there that
/// passes `filter`.
pub open spec fn resolve_from(idx: IndexModel, locs: Seq<LocationModel>, k: int, filter: KindFilter) -> Option<ResolvedModel>
    decreases locs.len() - k,
{
    if k < 0 || k >= locs.len() {
        None
    } else {
        let next = resolve_from(idx, locs, k + 1, filter);
        match file_in(idx.files, locs[k].uri) {
            None => next,
            Some(f) => match first_match(f.symbols, Query::DeclaredAt(locs[k].range)) {
                None => next,
                Some(sym) => if kind_passes(filter, sym.kind) {
                    Some(ResolvedModel { kind: sym.kind, uri: locs[k].uri, range: sym.range })
                } else {
                    next
                },
            },
        }
    }
}

/// What `name` resolves to among the kinds that `filter` lets through.
pub open spec fn resolve(idx: IndexModel, name: Seq<char>, filter: KindFilter) -> Option<ResolvedModel> {
    resolve_from(idx, definition_locations(idx, name), 0, filter)
}


// ─── Executable lookups ─────────────────────────────────────────────────────

/// Whether two ranges are the same.
fn same_range(a: &Range, b: &Range) -> (r: bool)
    ensures
        r == (*a == *b),
{
    a.start.line == b.start.line && a.start.character == b.start.character && a.end.line == b.end.line
        && a.end.character == b.end.character
}

impl SymbolIndex {
    /// Where `name` is defined: `None` when the index has no entry for it.
    pub fn definition_locations(&self, name: &str) -> (r: Option<&Vec<Location>>)
        ensures
            match r {
                Some(v) => v@.map_values(|l: Location| l@) == definition_locations(self@, name@),
                None => definition_locations(self@, name@) == Seq::<LocationModel>::empty(),
            },
    {
        let key = str_chars(name);
        let ghost defs = self@.definitions;
        let mut i: usize = 0;
        proof {
            assert(defs.subrange(0, defs.len() as int) =~= defs);
        }
        while i < self.definitions.len()
            invariant
                i <= self.definitions@.len(),
                key@ == name@,
                defs == self@.definitions,
                defs.len() == self.definitions@.len(),
                locations_in(defs, name@) == locations_in(defs.subrange(i as int, defs.len() as int), name@),
            decreases self.definitions@.len() - i,
        {
            let ghost rest = defs.subrange(i as int, defs.len() as int);
            assert(rest[0] == self.definitions@[i as int]@);
            assert(rest.drop_first() =~= defs.subrange(i + 1, defs.len() as int));
            if chars_equal(&str_chars(self.definitions[i].name.as_str()), &key) {
                return Some(&self.definitions[i].locations);
            }
            i = i + 1;
        }
        assert(defs.subrange(i as int, defs.len() as int) =~= Seq::<DefinitionsModel>::empty());
        None
    }

    /// The symbols recorded for the file `uri`.
    pub fn file(&self, uri: &str) -> (r: Option<&FileSymbols>)
        ensures
            match r {
                Some(f) => file_in(self@.files, uri@) == Some(f@),
                None => file_in(self@.files, uri@) is None,
            },
    {
        let key = str_chars(uri);
        let ghost files = self@.files;
        let mut i: usize = 0;
        proof {
            assert(files.subrange(0, files.len() as int) =~= files);
        }
        while i < self.files.len()
            invariant
                i <= self.files@.len(),
                key@ == uri@,
                files == self@.files,
                files.len() == self.files@.len(),
                file_in(files, uri@) == file_in(files.subrange(i as int, files.len() as int), uri@),
            decreases self.files@.len() - i,
        {
            let ghost rest = files.subrange(i as int, files.len() as int);
            assert(rest[0] == self.files@[i as int]@);
            assert(rest.drop_first() =~= files.subrange(i + 1, files.len() as int));
            if chars_equal(&str_chars(self.files[i].uri.as_str()), &key) {
                return Some(&self.files[i]);
            }
            i = i + 1;
        }
        assert(files.subrange(i as int, files.len() as int) =~= Seq::<FileModel>::empty());
        None
    }
}

/// A question asked of each symbol of a file.
pub enum SymbolQuery {
    TypeNamed(String),
    MemberWithin(String, Range),
    ExtensionFor(String, String),
    DeclaredAt(Range),
    EnumMemberIn(String, Range),
}

impl View for SymbolQuery {
    type V = Query;

    open spec fn view(&self) -> Query {
        match self {
            SymbolQuery::TypeNamed(n) => Query::TypeNamed(n@),
            SymbolQuery::MemberWithin(n, r) => Query::MemberWithin(n@, *r),
            SymbolQuery::ExtensionFor(n, t) => Query::ExtensionFor(n@, t@),
            SymbolQuery::DeclaredAt(r) => Query::DeclaredAt(*r),
            SymbolQuery::EnumMemberIn(n, r) => Query::EnumMemberIn(n@, *r),
        }
    }
}

/// Whether symbol `s` answers `q`.
fn answers_query(s: &SymbolEntry, q: &SymbolQuery) -> (r: bool)
    ensures
        r == answers(q@, s@),
{
    match q {
        SymbolQuery::TypeNamed(name) => text_is(s.name.as_str(), name.as_str()) && is_type_symbol(s.kind),
        SymbolQuery::MemberWithin(name, owner) => text_is(s.name.as_str(), name.as_str()) && is_member_symbol(
            s.kind,
        ) && range_within(&s.range, owner),
        SymbolQuery::ExtensionFor(name, receiver) => text_is(s.name.as_str(), name.as_str()) && is_member_symbol(
            s.kind,
        ) && !s.extension_receiver.as_str().is_empty() && matches_receiver_type(
            s.extension_receiver.as_str(),
            receiver.as_str(),
        ),
        SymbolQuery::DeclaredAt(r) => same_range(&s.selection_range, r),
        SymbolQuery::EnumMemberIn(name, owner) => s.kind == SYMBOL_ENUM_MEMBER && text_is(
            s.name.as_str(),
            name.as_str(),
        ) && range_contains(owner, &s.selection_range.start),
    }
}

/// The first symbol of the file that answers `q`.
pub(crate) fn find_symbol<'a>(f: &'a FileSymbols, q: &SymbolQuery) -> (r: Option<&'a SymbolEntry>)
    ensures
        match r {
            Some(s) => first_match(f@.symbols, q@) == Some(s@),
            None => first_match(f@.symbols, q@) is None,
        },
{
    let ghost syms = f@.symbols;
    let mut i: usize = 0;
    proof {
        assert(syms.subrange(0, syms.len() as int) =~= syms);
    }
    while i < f.symbols.len()
        invariant
            i <= f.symbols@.len(),
            syms == f@.symbols,
            syms.len() == f.symbols@.len(),
            first_match(syms, q@) == first_match(syms.subrange(i as int, syms.len() as int), q@),
        decreases f.symbols@.len() - i,
    {
        let ghost rest = syms.subrange(i as int, syms.len() as int);
        assert(rest[0] == f.symbols@[i as int]@);
        assert(rest.drop_first() =~= syms.subrange(i + 1, syms.len() as int));
        if answers_query(&f.symbols[i], q) {
            return Some(&f.symbols[i]);
        }
        i = i + 1;
    }
    assert(syms.subrange(i as int, syms.len() as int) =~= Seq::<SymbolModel>::empty());
    None
}

/// Whether `name` is defined somewhere as a type (a class, interface, enum,
/// object or struct).
pub fn has_type_definition(index: &SymbolIndex, name: &str) -> (r: bool)
    ensures
        r == type_defined(index@, name@),
{
    let locs = match index.definition_locations(name) {
        Some(v) => v,
        None => return false,
    };
    let ghost lm = definition_locations(index@, name@);
    let q = SymbolQuery::TypeNamed(name.to_owned());
    let mut j: usize = 0;
    while j < locs.len()
        invariant
            j <= locs@.len(),
            lm == locs@.map_values(|l: Location| l@),
            lm == definition_locations(index@, name@),
            q@ == Query::TypeNamed(name@),
            forall|m: int|
                0 <= m < j ==> !(match file_in(index@.files, (#[trigger] lm[m]).uri) {
                    Some(f) => first_match(f.symbols, Query::TypeNamed(name@)) is Some,
                    None => false,
                }),
        decreases locs@.len() - j,
    {
        assert(lm[j as int] == locs@[j as int]@);
        match index.file(locs[j].uri.as_str()) {
            Some(f) => {
                if find_symbol(f, &q).is_some() {
                    return true;
                }
            },
            None => {},
        }
        j = j + 1;
    }
    false
}

/// The token type of `member_name` as a member declared inside the type
/// `receiver_type` (found through the definitions of its simple name).
pub fn owner_member_token_type(index: &SymbolIndex, receiver_type: &str, member_name: &str) -> (r: Option<TokenType>)
    ensures
        r == owner_member_type(index@, receiver_type@, member_name@),
{
    let leaf_chars = last_segment_chars(&str_chars(receiver_type));
    let leaf = chars_to_string(leaf_chars.as_slice());
    let locs = match index.definition_locations(leaf.as_str()) {
        Some(v) => v,
        None => return None,
    };
    let ghost lm = definition_locations(index@, leaf@);
    let mut k: usize = 0;
    while k < locs.len()
        invariant
            k <= locs@.len(),
            lm == locs@.map_values(|l: Location| l@),
            leaf@ == last_segment(receiver_type@),
            lm == definition_locations(index@, leaf@),
            owner_member_type(index@, receiver_type@, member_name@) == owner_member_from(
                index@,
                lm,
                k as int,
                leaf@,
                member_name@,
            ),
        decreases locs@.len() - k,
    {
        assert(lm[k as int] == locs@[k as int]@);
        match index.file(locs[k].uri.as_str()) {
            None => {},
            Some(f) => match find_symbol(f, &SymbolQuery::TypeNamed(leaf.clone())) {
                None => {},
                Some(owner) => match find_symbol(
                    f,
                    &SymbolQuery::MemberWithin(member_name.to_owned(), owner.range),
                ) {
                    Some(sym) => {
                        return member_token_type(sym.kind);
                    },
                    None => {},
                },
            },
        }
        k = k + 1;
    }
    None
}

/// The token type of `member_name` as an extension member declared on
/// `receiver_type`: a method when its kind names no other member type.
pub fn extension_member_token_type(index: &SymbolIndex, receiver_type: &str, member_name: &str) -> (r: Option<TokenType>)
    ensures
        r == extension_member_type(index@, receiver_type@, member_name@),
{
    let locs = match index.definition_locations(member_name) {
        Some(v) => v,
        None => return None,
    };
    let ghost lm = definition_locations(index@, member_name@);
    let mut k: usize = 0;
    while k < locs.len()
        invariant
            k <= locs@.len(),
            lm == locs@.map_values(|l: Location| l@),
            lm == definition_locations(index@, member_name@),
            extension_member_type(index@, receiver_type@, member_name@) == extension_member_from(
                index@,
                lm,
                k as int,
                receiver_type@,
                member_name@,
            ),
        decreases locs@.len() - k,
    {
        assert(lm[k as int] == locs@[k as int]@);
        match index.file(locs[k].uri.as_str()) {
            None => {},
            Some(f) => match find_symbol(
                f,
                &SymbolQuery::ExtensionFor(member_name.to_owned(), receiver_type.to_owned()),
            ) {
                Some(sym) => {
                    return match member_token_type(sym.kind) {
                        Some(t) => Some(t),
                        None => Some(TokenType::Method),
                    };
                },
                None => {},
            },
        }
        k = k + 1;
    }
    None
}

/// The token type of `member` read or called on a receiver of type
/// `receiver_type`: a member declared in that type, else an extension
/// declared on it, else a property when the type has a field of that name
/// (`field_found`, the answer of the type's field lookup).
pub open spec fn receiver_member_type(idx: IndexModel, receiver_type: Seq<char>, member: Seq<char>, field_found: bool) -> Option<TokenType> {
    match owner_member_type(idx, receiver_type, member) {
        Some(t) => Some(t),
        None => match extension_member_type(idx, receiver_type, member) {
            Some(t) => Some(t),
            None => if field_found {
                Some(TokenType::Property)
            } else {
                None
            },
        },
    }
}

/// The token type of `member_name` on a receiver of type `receiver_type`;
/// `field_found` tells whether that type declares a field of that name.
pub fn member_token_type_for_receiver(index: &SymbolIndex, receiver_type: &str, member_name: &str, field_found: bool) -> (r: Option<TokenType>)
    ensures
        r == receiver_member_type(index@, receiver_type@, member_name@, field_found),
{
    match owner_member_token_type(index, receiver_type, member_name) {
        Some(t) => Some(t),
        None => match extension_member_token_type(index, receiver_type, member_name) {
            Some(t) => Some(t),
            None => if field_found {
                Some(TokenType::Property)
            } else {
                None
            },
        },
    }
}

/// A last segment holds no dot.
proof fn lemma_last_segment_has_no_dot(s: Seq<char>)
    ensures
        forall|i: int| 0 <= i < last_segment(s).len() ==> last_segment(s)[i] != '.',
    decreases s.len(),
{
    if s.len() > 0 && s.last() != '.' {
        lemma_last_segment_has_no_dot(s.drop_last());
        let p = last_segment(s.drop_last());
        assert forall|i: int| 0 <= i < p.push(s.last()).len() implies p.push(s.last())[i] != '.' by {
            if i < p.len() {
                assert(p.push(s.last())[i] == p[i]);
            }
        }
    }
}

/// A name without dots is its own last segment.
proof fn lemma_last_segment_of_plain(s: Seq<char>)
    requires
        forall|i: int| 0 <= i < s.len() ==> s[i] != '.',
    ensures
        last_segment(s) == s,
    decreases s.len(),
{
    if s.len() > 0 {
        assert(s.last() == s[s.len() - 1]);
        lemma_last_segment_of_plain(s.drop_last());
        assert(s.drop_last().push(s.last()) =~= s);
    }
}

/// The last segment of a last segment is itself.
proof fn lemma_last_segment_idempotent(s: Seq<char>)
    ensures
        last_segment(last_segment(s)) == last_segment(s),
{
    lemma_last_segment_has_no_dot(s);
    lemma_last_segment_of_plain(last_segment(s));
}

proof fn lemma_owner_member_from_kinds(idx: IndexModel, locs: Seq<LocationModel>, k: int, leaf: Seq<char>, member: Seq<char>)
    ensures
        owner_member_from(idx, locs, k, leaf, member) matches Some(t) ==> t == TokenType::Method || t
            == TokenType::Property,
    decreases locs.len() - k,
{
    if 0 <= k < locs.len() {
        lemma_owner_member_from_kinds(idx, locs, k + 1, leaf, member);
    }
}

/// Law: a member found in its owner type is a method or a property, and a
/// qualified receiver type finds the same member as its last segment.
pub proof fn law_owner_member_type(idx: IndexModel, receiver_type: Seq<char>, member: Seq<char>)
    ensures
        owner_member_type(idx, receiver_type, member) matches Some(t) ==> t == TokenType::Method || t
            == TokenType::Property,
        owner_member_type(idx, receiver_type, member) == owner_member_type(idx, last_segment(receiver_type), member),
{
    lemma_last_segment_idempotent(receiver_type);
    lemma_owner_member_from_kinds(
        idx,
        definition_locations(idx, last_segment(receiver_type)),
        0,
        last_segment(receiver_type),
        member,
    );
}

/// The values of an optional resolution.
pub open spec fn resolved_option(o: Option<ResolvedReference>) -> Option<ResolvedModel> {
    match o {
        Some(r) => Some(r@),
        None => None,
    }
}

/// What `name` resolves to: the first of its definitions whose file records a
/// symbol declared exactly there, when that symbol's kind passes `filter`.
pub fn resolve_symbol_kind(name: &str, index: &SymbolIndex, filter: KindFilter) -> (r: Option<ResolvedReference>)
    ensures
        resolved_option(r) == resolve(index@, name@, filter),
{
    let locs = match index.definition_locations(name) {
        Some(v) => v,
        None => return None,
    };
    let ghost lm = definition_locations(index@, name@);
    let mut k: usize = 0;
    while k < locs.len()
        invariant
            k <= locs@.len(),
            lm == locs@.map_values(|l: Location| l@),
            lm == definition_locations(index@, name@),
            resolve(index@, name@, filter) == resolve_from(index@, lm, k as int, filter),
        decreases locs@.len() - k,
    {
        assert(lm[k as int] == locs@[k as int]@);
        match index.file(locs[k].uri.as_str()) {
            None => {},
            Some(f) => match find_symbol(f, &SymbolQuery::DeclaredAt(locs[k].range)) {
                None => {},
                Some(sym) => {
                    if kind_passes_filter(filter, sym.kind) {
                        return Some(
                            ResolvedReference { kind: sym.kind, uri: locs[k].uri.clone(), range: sym.range },
                        );
                    }
                },
            },
        }
        k = k + 1;
    }
    None
}

/// Whether a symbol of kind `kind` passes `filter`.
pub fn kind_passes_filter(filter: KindFilter, kind: i32) -> (r: bool)
    ensures
        r == kind_passes(filter, kind),
{
    match filter {
        KindFilter::Any => true,
        KindFilter::Type => is_type_symbol(kind),
        KindFilter::Callable => kind == SYMBOL_CLASS || kind == SYMBOL_STRUCT || kind == SYMBOL_FUNCTION
            || kind == SYMBOL_METHOD,
        KindFilter::Object => kind == SYMBOL_OBJECT,
        KindFilter::Enum => kind == SYMBOL_ENUM,
    }
}

} // verus!
