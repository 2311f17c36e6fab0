use vstd::prelude::*;

verus! {

/// Byte and row/column extent of a piece of source text.
#[derive(Clone, Copy, PartialEq, Eq, Structural, Debug)]
pub struct RangeInfo {
    pub start_byte: usize,
    pub end_byte: usize,
    pub start_row: usize,
    pub start_col: usize,
    pub end_row: usize,
    pub end_col: usize,
}

/// One range lexically encloses another when it starts on the same or an
/// earlier row and ends on the same or a later row.
pub open spec fn encloses(outer: RangeInfo, inner: RangeInfo) -> bool {
    outer.start_row <= inner.start_row && outer.end_row >= inner.end_row
}

/// How many rows a range spans.
pub open spec fn row_span(r: RangeInfo) -> int {
    r.end_row - r.start_row
}

/// Where a declaration was found: the file and its extent there.
pub struct DefinitionInfo {
    pub path: String,
    pub range: RangeInfo,
}

pub ghost struct DefinitionInfoV {
    pub path: Seq<char>,
    pub range: RangeInfo,
}

impl View for DefinitionInfo {
    type V = DefinitionInfoV;

    open spec fn view(&self) -> DefinitionInfoV {
        DefinitionInfoV { path: self.path@, range: self.range }
    }
}

/// A declaration found in a source file.
pub struct SymbolDeclarationStruct {
    pub name: String,
    pub kind: String,
    pub meta_path: String,
    pub definition_info: DefinitionInfo,
    pub enum_values: Vec<String>,
    pub content: String,
}

pub ghost struct DeclV {
    pub name: Seq<char>,
    pub kind: Seq<char>,
    pub meta_path: Seq<char>,
    pub file: Seq<char>,
    pub range: RangeInfo,
    pub enum_values: Seq<Seq<char>>,
    pub content: Seq<char>,
}

impl View for SymbolDeclarationStruct {
    type V = DeclV;

    open spec fn view(&self) -> DeclV {
        DeclV {
            name: self.name@,
            kind: self.kind@,
            meta_path: self.meta_path@,
            file: self.definition_info.path@,
            range: self.definition_info.range,
            enum_values: crate::strkit::views(self.enum_values@),
            content: self.content@,
        }
    }
}

impl SymbolDeclarationStruct {
    /// The source text covered by the declaration, captured when the file
    /// was indexed.
    pub fn get_content(&self) -> (r: String)
        ensures
            r@ == self@.content,
    {
        self.content.clone()
    }

    /// A field-for-field copy.
    pub fn duplicate(&self) -> (r: SymbolDeclarationStruct)
        ensures
            r@ == self@,
    {
        let mut enum_values: Vec<String> = Vec::new();
        let mut i: usize = 0;
        while i < self.enum_values.len()
            invariant
                i <= self.enum_values.len(),
                enum_values@.len() == i,
                forall|k: int| 0 <= k < i ==> enum_values@[k]@ == self.enum_values@[k]@,
            decreases self.enum_values.len() - i,
        {
            enum_values.push(self.enum_values[i].clone());
            i = i + 1;
        }
        proof {
            assert(crate::strkit::views(enum_values@) =~= crate::strkit::views(
                self.enum_values@,
            ));
        }
        SymbolDeclarationStruct {
            name: self.name.clone(),
            kind: self.kind.clone(),
            meta_path: self.meta_path.clone(),
            definition_info: DefinitionInfo {
                path: self.definition_info.path.clone(),
                range: self.definition_info.range,
            },
            enum_values,
            content: self.content.clone(),
        }
    }
}

/// A usage occurrence found in a source file, keyed by its call site.
pub struct UsageSymbolInfo {
    pub symbol_path: String,
    pub referenced_name: String,
    pub range: RangeInfo,
    pub type_names: Vec<String>,
    pub declaration_symbol_path: Option<String>,
}

pub ghost struct UsageV {
    pub symbol_path: Seq<char>,
    pub referenced_name: Seq<char>,
    pub range: RangeInfo,
    pub type_names: Seq<Seq<char>>,
    pub declaration_symbol_path: Option<Seq<char>>,
}

impl View for UsageSymbolInfo {
    type V = UsageV;

    open spec fn view(&self) -> UsageV {
        UsageV {
            symbol_path: self.symbol_path@,
            referenced_name: self.referenced_name@,
            range: self.range,
            type_names: crate::strkit::views(self.type_names@),
            declaration_symbol_path: match self.declaration_symbol_path {
                Some(ref p) => Some(p@),
                None => None,
            },
        }
    }
}

impl UsageSymbolInfo {
    /// The occurrence's own symbol path.
    pub fn meta_path(&self) -> (r: &String)
        ensures
            r@ == self@.symbol_path,
    {
        &self.symbol_path
    }

    /// The path of the declaration this usage was linked to, when one was.
    pub fn get_declaration_meta_path(&self) -> (r: &Option<String>)
        ensures
            match r {
                Some(p) => self@.declaration_symbol_path == Some(p@),
                None => (self@.declaration_symbol_path is None),
            },
    {
        &self.declaration_symbol_path
    }

    /// A field-for-field copy.
    pub fn duplicate(&self) -> (r: UsageSymbolInfo)
        ensures
            r@ == self@,
    {
        let mut type_names: Vec<String> = Vec::new();
        let mut i: usize = 0;
        while i < self.type_names.len()
            invariant
                i <= self.type_names.len(),
                type_names@.len() == i,
                forall|k: int| 0 <= k < i ==> type_names@[k]@ == self.type_names@[k]@,
            decreases self.type_names.len() - i,
        {
            type_names.push(self.type_names[i].clone());
            i = i + 1;
        }
        proof {
            assert(crate::strkit::views(type_names@) =~= crate::strkit::views(self.type_names@));
        }
        UsageSymbolInfo {
            symbol_path: self.symbol_path.clone(),
            referenced_name: self.referenced_name.clone(),
            range: self.range,
            type_names,
            declaration_symbol_path: match &self.declaration_symbol_path {
                Some(p) => Some(p.clone()),
                None => None,
            },
        }
    }

    /// Binds this usage to a declaration's symbol path.
    pub fn set_definition_meta_path(&mut self, path: String)
        ensures
            final(self)@ == (UsageV { declaration_symbol_path: Some(path@), ..old(self)@ }),
    {
        self.declaration_symbol_path = Some(path);
    }
}

/// One ranked answer of a search: the declaration, the text it covers, and
/// its similarity score in the total order of non-negative similarity values.
pub struct SymbolsSearchResultStruct {
    pub symbol_declaration: SymbolDeclarationStruct,
    pub content: String,
    pub sim_to_query: u128,
}

pub ghost struct SearchResultV {
    pub symbol_declaration: DeclV,
    pub content: Seq<char>,
    pub sim_to_query: u128,
}

impl View for SymbolsSearchResultStruct {
    type V = SearchResultV;

    open spec fn view(&self) -> SearchResultV {
        SearchResultV {
            symbol_declaration: self.symbol_declaration@,
            content: self.content@,
            sim_to_query: self.sim_to_query,
        }
    }
}

/// The kinds of failure the index reports.
#[derive(Clone, Copy, PartialEq, Eq, Structural, Debug)]
pub enum AstError {
    /// No grammar adapter handles the file's extension, or the adapter
    /// could not be constructed.
    UnsupportedLanguage,
    /// The file could not be read.
    IoError,
    /// The grammar rejected the file.
    ParseError,
    /// The file was never added, or was removed.
    NotIndexed,
    /// The search query is not a valid regular expression.
    InvalidQuery,
}

} // verus!
