use vstd::prelude::*;
use vstd::hash_map::StringHashMap;
use crate::cpp::{pair_views, spec_children_decls, spec_decls, spec_node_decls, spec_usages, usage_views};
use crate::keyset::{build_keyset, ci_match, fst_keys, regex_check, regex_ok, search_keyset};
use crate::linker::{link_declarations_to_usages, spec_link};
use crate::parse_tree::{cpp_parse, CppParser, ParseNode};
use crate::records::{AstError, DeclV, SearchResultV, SymbolDeclarationStruct, SymbolsSearchResultStruct, UsageSymbolInfo, UsageV};
use crate::strkit::{is_cpp_path, has_cpp_extension, no_dup_views, paths_insert, paths_remove, sort_unique, str_eq, strictly_sorted, views};

verus! {

/// One indexed file: its two key lists, sorted and duplicate-free, each
/// compiled into an immutable finite-state set for automaton search.
pub struct FileEntry {
    pub path: String,
    pub decl_keys: Vec<String>,
    pub decl_set: fst::Set<Vec<u8>>,
    pub usage_keys: Vec<String>,
    pub usage_set: fst::Set<Vec<u8>>,
}

pub ghost struct FileV {
    pub decl_keys: Set<Seq<char>>,
    pub usage_keys: Set<Seq<char>>,
}

pub open spec fn entry_v(e: FileEntry) -> FileV {
    FileV { decl_keys: views(e.decl_keys@).to_set(), usage_keys: views(e.usage_keys@).to_set() }
}

/// The abstract state of the index: the two global maps and, per file, the
/// two keysets.
pub ghost struct AstIndexV {
    pub declarations: Map<Seq<char>, DeclV>,
    pub usages: Map<Seq<char>, Seq<UsageV>>,
    pub files: Map<Seq<char>, FileV>,
}

pub open spec fn files_map(fs: Seq<FileEntry>) -> Map<Seq<char>, FileV>
    decreases fs,
{
    if fs.len() == 0 {
        Map::empty()
    } else {
        files_map(fs.drop_last()).insert(fs.last().path@, entry_v(fs.last()))
    }
}

/// The in-memory searchable symbol store: global maps from symbol path to
/// declaration record and to usage bucket, and per-file compiled keysets.
pub struct AstIndex {
    declarations: StringHashMap<SymbolDeclarationStruct>,
    decl_paths: Vec<String>,
    usages: StringHashMap<Vec<UsageSymbolInfo>>,
    usage_paths: Vec<String>,
    files: Vec<FileEntry>,
}

impl View for AstIndex {
    type V = AstIndexV;

    closed spec fn view(&self) -> AstIndexV {
        AstIndexV {
            declarations: self.declarations@.map_values(|d: SymbolDeclarationStruct| d@),
            usages: self.usages@.map_values(|v: Vec<UsageSymbolInfo>| usage_views(v@)),
            files: files_map(self.files@),
        }
    }
}

pub open spec fn entry_wf(e: FileEntry) -> bool {
    &&& strictly_sorted(views(e.decl_keys@))
    &&& fst_keys(e.decl_set) == views(e.decl_keys@).to_set()
    &&& strictly_sorted(views(e.usage_keys@))
    &&& fst_keys(e.usage_set) == views(e.usage_keys@).to_set()
}

impl AstIndex {
    /// The index's internal consistency: file entries carry distinct paths,
    /// every keyset matches its key list, and the two key-path lists mirror
    /// the domains of the two global maps.
    pub closed spec fn wf(&self) -> bool {
        &&& forall|i: int, j: int|
            0 <= i < j < self.files@.len() ==> self.files@[i].path@ != self.files@[j].path@
        &&& forall|i: int| 0 <= i < self.files@.len() ==> entry_wf(#[trigger] self.files@[i])
        &&& no_dup_views(self.decl_paths@)
        &&& forall|x: Seq<char>|
            views(self.decl_paths@).contains(x) <==> self.declarations@.contains_key(x)
        &&& no_dup_views(self.usage_paths@)
        &&& forall|x: Seq<char>|
            views(self.usage_paths@).contains(x) <==> self.usages@.contains_key(x)
    }

    /// A fresh, empty index.
    pub fn init() -> (r: AstIndex)
        ensures
            r.wf(),
            r@.declarations == Map::<Seq<char>, DeclV>::empty(),
            r@.usages == Map::<Seq<char>, Seq<UsageV>>::empty(),
            r@.files == Map::<Seq<char>, FileV>::empty(),
    {
        let r = AstIndex {
            declarations: StringHashMap::new(),
            decl_paths: Vec::new(),
            usages: StringHashMap::new(),
            usage_paths: Vec::new(),
            files: Vec::new(),
        };
        proof {
            assert(r@.declarations =~= Map::<Seq<char>, DeclV>::empty());
            assert(r@.usages =~= Map::<Seq<char>, Seq<UsageV>>::empty());
            assert(r@.files =~= Map::<Seq<char>, FileV>::empty());
        }
        r
    }
}

proof fn lemma_files_map_contains(fs: Seq<FileEntry>, p: Seq<char>)
    ensures
        files_map(fs).contains_key(p) <==> exists|i: int| 0 <= i < fs.len() && fs[i].path@ == p,
    decreases fs,
{
    if fs.len() > 0 {
        lemma_files_map_contains(fs.drop_last(), p);
        if fs.last().path@ == p {
            assert(fs[fs.len() - 1].path@ == p);
        } else if files_map(fs).contains_key(p) {
            let i = choose|i: int| 0 <= i < fs.drop_last().len() && fs.drop_last()[i].path@ == p;
            assert(fs[i].path@ == p);
        } else {
            assert forall|i: int| 0 <= i < fs.len() implies fs[i].path@ != p by {
                if i < fs.len() - 1 {
                    assert(fs.drop_last()[i].path@ != p);
                }
            }
        }
    }
}

proof fn lemma_files_map_lookup(fs: Seq<FileEntry>, i: int)
    requires
        0 <= i < fs.len(),
        forall|a: int, b: int| 0 <= a < b < fs.len() ==> fs[a].path@ != fs[b].path@,
    ensures
        files_map(fs).contains_key(fs[i].path@),
        files_map(fs)[fs[i].path@] == entry_v(fs[i]),
    decreases fs,
{
    if i == fs.len() - 1 {
        assert(fs.last() == fs[i]);
    } else {
        assert(forall|a: int, b: int|
            0 <= a < b < fs.drop_last().len() ==> fs.drop_last()[a].path@ != fs.drop_last()[b].path@);
        lemma_files_map_lookup(fs.drop_last(), i);
        assert(fs.drop_last()[i] == fs[i]);
        assert(fs.last().path@ != fs[i].path@);
    }
}

proof fn lemma_files_map_remove(fs: Seq<FileEntry>, i: int)
    requires
        0 <= i < fs.len(),
        forall|a: int, b: int| 0 <= a < b < fs.len() ==> fs[a].path@ != fs[b].path@,
    ensures
        files_map(fs.remove(i)) == files_map(fs).remove(fs[i].path@),
    decreases fs,
{
    if i == fs.len() - 1 {
        assert(fs.remove(i) =~= fs.drop_last());
        lemma_files_map_contains(fs.drop_last(), fs[i].path@);
        assert(forall|a: int| 0 <= a < fs.drop_last().len() ==> fs.drop_last()[a] == fs[a]);
        assert(!files_map(fs.drop_last()).contains_key(fs[i].path@)) by {
            if files_map(fs.drop_last()).contains_key(fs[i].path@) {
                let a = choose|a: int|
                    0 <= a < fs.drop_last().len() && fs.drop_last()[a].path@ == fs[i].path@;
                assert(fs[a].path@ == fs[i].path@);
            }
        }
        assert(files_map(fs.drop_last()).insert(fs.last().path@, entry_v(fs.last())).remove(
            fs[i].path@,
        ) =~= files_map(fs.drop_last()));
    } else {
        assert(forall|a: int, b: int|
            0 <= a < b < fs.drop_last().len() ==> fs.drop_last()[a].path@ != fs.drop_last()[b].path@);
        lemma_files_map_remove(fs.drop_last(), i);
        assert(fs.remove(i).drop_last() =~= fs.drop_last().remove(i));
        assert(fs.remove(i).last() == fs.last());
        assert(files_map(fs.remove(i)) == files_map(fs.drop_last().remove(i)).insert(
            fs.last().path@,
            entry_v(fs.last()),
        ));
        assert(files_map(fs.drop_last()).remove(fs[i].path@).insert(
            fs.last().path@,
            entry_v(fs.last()),
        ) =~= files_map(fs.drop_last()).insert(fs.last().path@, entry_v(fs.last())).remove(
            fs[i].path@,
        )) by {
            assert(fs.last().path@ != fs[i].path@);
        }
    }
}

/// The state after a file is dropped: its entry and, from each global map,
/// exactly the keys its keysets held.
pub open spec fn spec_remove_file(v: AstIndexV, path: Seq<char>) -> AstIndexV {
    if v.files.contains_key(path) {
        AstIndexV {
            declarations: v.declarations.remove_keys(v.files[path].decl_keys),
            usages: v.usages.remove_keys(v.files[path].usage_keys),
            files: v.files.remove(path),
        }
    } else {
        v
    }
}

impl AstIndex {
    fn find_file(&self, path: &String) -> (r: Option<usize>)
        ensures
            match r {
                Some(i) => i < self.files@.len() && self.files@[i as int].path@ == path@,
                None => forall|i: int| 0 <= i < self.files@.len() ==> self.files@[i].path@ != path@,
            },
    {
        let mut i: usize = 0;
        while i < self.files.len()
            invariant
                i <= self.files.len(),
                forall|k: int| 0 <= k < i ==> self.files@[k].path@ != path@,
            decreases self.files.len() - i,
        {
            if str_eq(self.files[i].path.as_str(), path.as_str()) {
                return Some(i);
            }
            i = i + 1;
        }
        None
    }

    /// Removes a key from the declarations map and from its mirror list.
    fn remove_decl_key(&mut self, k: &String)
        requires
            old(self).wf(),
        ensures
            final(self).wf(),
            final(self).declarations@ == old(self).declarations@.remove(k@),
            final(self).usages@ == old(self).usages@,
            final(self).files@ == old(self).files@,
            final(self).usage_paths@ == old(self).usage_paths@,
    {
        self.declarations.remove(k.as_str());
        paths_remove(&mut self.decl_paths, k);
    }

    /// Removes a key from the usages map and from its mirror list.
    fn remove_usage_key(&mut self, k: &String)
        requires
            old(self).wf(),
        ensures
            final(self).wf(),
            final(self).usages@ == old(self).usages@.remove(k@),
            final(self).declarations@ == old(self).declarations@,
            final(self).files@ == old(self).files@,
            final(self).decl_paths@ == old(self).decl_paths@,
    {
        self.usages.remove(k.as_str());
        paths_remove(&mut self.usage_paths, k);
    }

    /// Drops a file from the index: its keysets go, and with them exactly
    /// the keys they held in the two global maps. A file that was never
    /// added is ignored. Never fails.
    pub fn remove(&mut self, file_path: &String) -> (r: Result<(), AstError>)
        requires
            old(self).wf(),
        ensures
            final(self).wf(),
            final(self)@ == spec_remove_file(old(self)@, file_path@),
            r is Ok,
    {
        proof {
            lemma_files_map_contains(self.files@, file_path@);
        }
        let idx = match self.find_file(file_path) {
            Some(i) => i,
            None => {
                return Ok(());
            },
        };
        proof {
            lemma_files_map_lookup(self.files@, idx as int);
            lemma_files_map_remove(self.files@, idx as int);
        }
        let ghost old_view = self@;
        let ghost fkeys = old(self)@.files[file_path@];
        let entry = self.files.remove(idx);
        proof {
            assert(entry_v(entry) == fkeys);
        }
        let mut i: usize = 0;
        while i < entry.decl_keys.len()
            invariant
                self.wf(),
                i <= entry.decl_keys.len(),
                entry_wf(entry),
                entry_v(entry) == fkeys,
                self.usages@ == old(self).usages@,
                self.usage_paths@ == old(self).usage_paths@,
                self.files@ == old(self).files@.remove(idx as int),
                self.declarations@ == old(self).declarations@.remove_keys(
                    views(entry.decl_keys@.take(i as int)).to_set(),
                ),
            decreases entry.decl_keys.len() - i,
    {
            self.remove_decl_key(&entry.decl_keys[i]);
            proof {
                crate::strkit::lemma_views_take_succ(entry.decl_keys@, i as int);
                assert(self.declarations@ =~= old(self).declarations@.remove_keys(
                    views(entry.decl_keys@.take(i + 1)).to_set(),
                ));
            }
            i = i + 1;
        }
        proof {
            assert(entry.decl_keys@.take(entry.decl_keys@.len() as int) =~= entry.decl_keys@);
        }
        let mut i: usize = 0;
        let ghost decls_after = self.declarations@;
        let ghost decl_paths_after = self.decl_paths@;
        while i < entry.usage_keys.len()
            invariant
                self.wf(),
                i <= entry.usage_keys.len(),
                entry_wf(entry),
                entry_v(entry) == fkeys,
                self.declarations@ == decls_after,
                self.decl_paths@ == decl_paths_after,
                self.files@ == old(self).files@.remove(idx as int),
                self.usages@ == old(self).usages@.remove_keys(
                    views(entry.usage_keys@.take(i as int)).to_set(),
                ),
            decreases entry.usage_keys.len() - i,
        {
            self.remove_usage_key(&entry.usage_keys[i]);
            proof {
                crate::strkit::lemma_views_take_succ(entry.usage_keys@, i as int);
                assert(self.usages@ =~= old(self).usages@.remove_keys(
                    views(entry.usage_keys@.take(i + 1)).to_set(),
                ));
            }
            i = i + 1;
        }
        proof {
            assert(entry.usage_keys@.take(entry.usage_keys@.len() as int) =~= entry.usage_keys@);
            let ov = old(self)@;
            assert(ov.files.contains_key(file_path@));
            assert(self@.declarations =~= ov.declarations.remove_keys(fkeys.decl_keys)) by {
                assert(self.declarations@ == old(self).declarations@.remove_keys(
                    views(entry.decl_keys@).to_set(),
                ));
            }
            assert(self@.usages =~= ov.usages.remove_keys(fkeys.usage_keys));
            assert(self@.files == ov.files.remove(file_path@));
        }
        Ok(())
    }
}


pub open spec fn keys_of(ds: Seq<(Seq<char>, DeclV)>) -> Seq<Seq<char>> {
    ds.map_values(|p: (Seq<char>, DeclV)| p.0)
}

pub open spec fn usage_keys_of(us: Seq<UsageV>) -> Seq<Seq<char>> {
    us.map_values(|u: UsageV| u.symbol_path)
}

/// Inserting declaration pairs in order: a later pair at the same path wins.
pub open spec fn spec_insert_decls(
    m: Map<Seq<char>, DeclV>,
    ds: Seq<(Seq<char>, DeclV)>,
) -> Map<Seq<char>, DeclV>
    decreases ds,
{
    if ds.len() == 0 {
        m
    } else {
        spec_insert_decls(m, ds.drop_last()).insert(ds.last().0, ds.last().1)
    }
}

/// Appending usages in order: each goes to the bucket of its own symbol path.
pub open spec fn spec_insert_usages(
    m: Map<Seq<char>, Seq<UsageV>>,
    us: Seq<UsageV>,
) -> Map<Seq<char>, Seq<UsageV>>
    decreases us,
{
    if us.len() == 0 {
        m
    } else {
        let m1 = spec_insert_usages(m, us.drop_last());
        let u = us.last();
        let bucket = if m1.contains_key(u.symbol_path) {
            m1[u.symbol_path]
        } else {
            Seq::empty()
        };
        m1.insert(u.symbol_path, bucket.push(u))
    }
}

/// The state after a file is (re)indexed from its parse tree: the file's
/// prior contribution is removed, its declarations and linked usages go into
/// the global maps, and its new keysets replace the old entry.
pub open spec fn spec_add_file(v: AstIndexV, path: Seq<char>, root: ParseNode) -> AstIndexV {
    let ds = spec_decls(root, path);
    let us = spec_link(ds, spec_usages(root));
    let v1 = spec_remove_file(v, path);
    AstIndexV {
        declarations: spec_insert_decls(v1.declarations, ds),
        usages: spec_insert_usages(v1.usages, us),
        files: v1.files.insert(
            path,
            FileV { decl_keys: keys_of(ds).to_set(), usage_keys: usage_keys_of(us).to_set() },
        ),
    }
}

/// A field-for-field copy of a usage bucket.
fn clone_usages(v: &Vec<UsageSymbolInfo>) -> (r: Vec<UsageSymbolInfo>)
    ensures
        usage_views(r@) == usage_views(v@),
{
    let mut out: Vec<UsageSymbolInfo> = Vec::new();
    let mut i: usize = 0;
    while i < v.len()
        invariant
            i <= v.len(),
            out@.len() == i,
            forall|k: int| 0 <= k < i ==> out@[k]@ == v@[k]@,
        decreases v.len() - i,
    {
        out.push(v[i].duplicate());
        i = i + 1;
    }
    proof {
        assert(usage_views(out@) =~= usage_views(v@));
    }
    out
}

impl AstIndex {
    /// Parses the file's text with the grammar its extension selects and
    /// replaces the file's contribution to the index. On any failure —
    /// an extension without an adapter, an adapter the linked grammar
    /// refuses to build, or a text the grammar rejects — the index is left
    /// exactly as it was.
    pub fn add_or_update(&mut self, file_path: &String, text: &String) -> (r: Result<
        (),
        AstError,
    >)
        requires
            old(self).wf(),
        ensures
            final(self).wf(),
            match r {
                Ok(_) => is_cpp_path(file_path@) && (cpp_parse(text@) matches Some(root)
                    && final(self)@ == spec_add_file(old(self)@, file_path@, root)),
                Err(e) => {
                    &&& final(self)@ == old(self)@
                    &&& (e == AstError::ParseError || e == AstError::UnsupportedLanguage)
                    &&& (e == AstError::ParseError ==> is_cpp_path(file_path@) && cpp_parse(text@)
                        is None)
                    &&& (!is_cpp_path(file_path@) ==> e == AstError::UnsupportedLanguage)
                },
            },
    {
        if !has_cpp_extension(file_path) {
            return Err(AstError::UnsupportedLanguage);
        }
        let mut parser = match CppParser::new() {
            Ok(p) => p,
            Err(_) => {
                return Err(AstError::UnsupportedLanguage);
            },
        };
        self.add_with_parser(&mut parser, file_path, text)
    }

    /// Replaces the file's contribution to the index, with the adapter
    /// already in hand: succeeds exactly when the extension is handled and
    /// the grammar parses the text, and otherwise changes nothing.
    pub fn add_with_parser(
        &mut self,
        parser: &mut CppParser,
        file_path: &String,
        text: &String,
    ) -> (r: Result<(), AstError>)
        requires
            old(self).wf(),
        ensures
            final(self).wf(),
            match r {
                Ok(_) => is_cpp_path(file_path@) && (cpp_parse(text@) matches Some(root)
                    && final(self)@ == spec_add_file(old(self)@, file_path@, root)),
                Err(e) => {
                    &&& final(self)@ == old(self)@
                    &&& (e == AstError::UnsupportedLanguage <==> !is_cpp_path(file_path@))
                    &&& (e == AstError::ParseError <==> is_cpp_path(file_path@) && cpp_parse(
                        text@,
                    ) is None)
                    &&& (e == AstError::ParseError || e == AstError::UnsupportedLanguage)
                },
                // success is owed whenever the extension is handled and the
                // text parses
            },
            is_cpp_path(file_path@) && (cpp_parse(text@) is Some) ==> (r is Ok),
    {
        if !has_cpp_extension(file_path) {
            return Err(AstError::UnsupportedLanguage);
        }
        let decls = match parser.parse_declarations(text.as_str(), file_path) {
            Ok(d) => d,
            Err(_) => {
                return Err(AstError::ParseError);
            },
        };
        let usages0 = match parser.parse_usages(text.as_str()) {
            Ok(u) => u,
            Err(_) => {
                return Err(AstError::ParseError);
            },
        };
        let ghost root = cpp_parse(text@).unwrap();
        let linked = link_declarations_to_usages(&decls, &usages0);
        proof {
            assert(pair_views(decls@) == spec_decls(root, file_path@));
            assert(usage_views(linked@) == spec_link(
                spec_decls(root, file_path@),
                spec_usages(root),
            ));
        }
        let _ = self.remove(file_path);
        let ghost v1 = self@;
        let ghost dsv = pair_views(decls@);

        // Insert the declaration records and collect their paths.
        let mut dkeys: Vec<String> = Vec::new();
        let mut i: usize = 0;
        proof {
            assert(dsv.take(0) =~= Seq::<(Seq<char>, DeclV)>::empty());
            assert(views(dkeys@) =~= keys_of(dsv.take(0)));
        }
        while i < decls.len()
            invariant
                self.wf(),
                i <= decls.len(),
                dsv == pair_views(decls@),
                self@.declarations == spec_insert_decls(v1.declarations, dsv.take(i as int)),
                self@.usages == v1.usages,
                self@.files == v1.files,
                views(dkeys@) == keys_of(dsv.take(i as int)),
            decreases decls.len() - i,
        {
            let k = decls[i].0.clone();
            let record = decls[i].1.duplicate();
            let ghost before = self@.declarations;
            let ghost prev_keys = views(dkeys@);
            self.declarations.insert(k.clone(), record);
            paths_insert(&mut self.decl_paths, &k);
            dkeys.push(k);
            proof {
                assert(dsv.take(i + 1).drop_last() =~= dsv.take(i as int));
                assert(dsv.take(i + 1).last() == dsv[i as int]);
                assert(dsv[i as int] == (decls@[i as int].0@, decls@[i as int].1@));
                assert(self@.declarations =~= before.insert(dsv[i as int].0, dsv[i as int].1));
                assert(self@.usages =~= v1.usages);
                assert(self@.files == v1.files);
                assert(views(dkeys@) =~= prev_keys.push(k@));
                assert forall|j: int|
                    0 <= j <= i as int implies views(dkeys@)[j] == keys_of(dsv.take(i + 1))[j] by {
                    assert(dsv.take(i + 1)[j] == dsv[j]);
                    assert(keys_of(dsv.take(i + 1))[j] == dsv[j].0);
                    if j < i {
                        assert(views(dkeys@)[j] == prev_keys[j]);
                        assert(prev_keys[j] == keys_of(dsv.take(i as int))[j]);
                        assert(keys_of(dsv.take(i as int))[j] == dsv.take(i as int)[j].0);
                    } else {
                        assert(views(dkeys@)[j] == k@);
                        assert(dsv[j].0 == decls@[i as int].0@);
                    }
                }
                assert(views(dkeys@) =~= keys_of(dsv.take(i + 1)));
            }
            i = i + 1;
        }
        proof {
            assert(dsv.take(dsv.len() as int) =~= dsv);
        }
        let sorted_d = sort_unique(&dkeys);
        let decl_set = build_keyset(&sorted_d);
        proof {
            assert(views(sorted_d@).to_set() =~= keys_of(dsv).to_set());
        }

        // Append the linked usages to their buckets and collect their paths.
        let ghost usv = usage_views(linked@);
        let mut ukeys: Vec<String> = Vec::new();
        let mut i: usize = 0;
        proof {
            assert(usv.take(0) =~= Seq::<UsageV>::empty());
            assert(views(ukeys@) =~= usage_keys_of(usv.take(0)));
        }
        while i < linked.len()
            invariant
                self.wf(),
                i <= linked.len(),
                usv == usage_views(linked@),
                self@.usages == spec_insert_usages(v1.usages, usv.take(i as int)),
                self@.declarations == spec_insert_decls(v1.declarations, pair_views(decls@)),
                self@.files == v1.files,
                views(ukeys@) == usage_keys_of(usv.take(i as int)),
            decreases linked.len() - i,
        {
            let k = linked[i].symbol_path.clone();
            let mut bucket = match self.usages.get(k.as_str()) {
                Some(b) => clone_usages(b),
                None => Vec::new(),
            };
            let ghost before = self@.usages;
            proof {
                assert(usage_views(bucket@) =~= (if before.contains_key(k@) {
                    before[k@]
                } else {
                    Seq::<UsageV>::empty()
                }));
            }
            let ghost bucket_before = usage_views(bucket@);
            let ghost prev_keys = views(ukeys@);
            bucket.push(linked[i].duplicate());
            self.usages.insert(k.clone(), bucket);
            paths_insert(&mut self.usage_paths, &k);
            ukeys.push(k);
            proof {
                assert(usv.take(i + 1).drop_last() =~= usv.take(i as int));
                assert(usv.take(i + 1).last() == usv[i as int]);
                assert(usv[i as int] == linked@[i as int]@);
                assert(usv[i as int].symbol_path == k@);
                assert(usage_views(bucket@) =~= bucket_before.push(usv[i as int]));
                assert(self@.usages =~= before.insert(k@, usage_views(bucket@)));
                assert(self@.usages =~= spec_insert_usages(v1.usages, usv.take(i + 1)));
                assert(self@.declarations =~= spec_insert_decls(
                    v1.declarations,
                    pair_views(decls@),
                ));
                assert(self@.files == v1.files);
                assert(views(ukeys@) =~= prev_keys.push(k@));
                assert forall|j: int|
                    0 <= j <= i as int implies views(ukeys@)[j] == usage_keys_of(
                    usv.take(i + 1),
                )[j] by {
                    assert(usv.take(i + 1)[j] == usv[j]);
                    assert(usage_keys_of(usv.take(i + 1))[j] == usv[j].symbol_path);
                    if j < i {
                        assert(views(ukeys@)[j] == prev_keys[j]);
                        assert(prev_keys[j] == usage_keys_of(usv.take(i as int))[j]);
                        assert(usage_keys_of(usv.take(i as int))[j] == usv.take(i as int)[
                            j].symbol_path);
                    } else {
                        assert(views(ukeys@)[j] == k@);
                    }
                }
                assert(views(ukeys@) =~= usage_keys_of(usv.take(i + 1)));
            }
            i = i + 1;
        }
        proof {
            assert(usv.take(usv.len() as int) =~= usv);
        }
        let sorted_u = sort_unique(&ukeys);
        let usage_set = build_keyset(&sorted_u);
        proof {
            assert(views(sorted_u@).to_set() =~= usage_keys_of(usv).to_set());
        }

        // Install the file's new entry.
        proof {
            lemma_files_map_contains(self.files@, file_path@);
            assert(!v1.files.contains_key(file_path@)) by {
                if old(self)@.files.contains_key(file_path@) {
                } else {
                    lemma_files_map_contains(old(self).files@, file_path@);
                }
            }
        }
        let entry = FileEntry {
            path: file_path.clone(),
            decl_keys: sorted_d,
            decl_set,
            usage_keys: sorted_u,
            usage_set,
        };
        let ghost files_before = self.files@;
        self.files.push(entry);
        proof {
            assert(self.files@.drop_last() =~= files_before);
            assert(self.files@.last() == entry);
            assert(self@.files == files_map(files_before).insert(file_path@, entry_v(entry)));
            assert(entry_v(entry).decl_keys =~= keys_of(spec_decls(root, file_path@)).to_set());
            assert(entry_v(entry).usage_keys =~= usage_keys_of(
                spec_link(spec_decls(root, file_path@), spec_usages(root)),
            ).to_set());
            assert(self@ == spec_add_file(old(self)@, file_path@, root)) by {
                assert(self@.declarations == spec_add_file(
                    old(self)@,
                    file_path@,
                    root,
                ).declarations);
                assert(self@.usages == spec_add_file(old(self)@, file_path@, root).usages);
                assert(self@.files =~= spec_add_file(old(self)@, file_path@, root).files);
            }
            assert forall|a: int, b: int|
                0 <= a < b < self.files@.len() implies self.files@[a].path@
                != self.files@[b].path@ by {
                if b == self.files@.len() - 1 {
                    assert(self.files@[a] == files_before[a]);
                    if files_before[a].path@ == file_path@ {
                        assert(false);
                    }
                }
            }
        }
        Ok(())
    }

    /// Every symbol path the declaration map holds, one entry each.
    pub fn get_indexed_symbol_paths(&self) -> (r: Vec<String>)
        requires
            self.wf(),
        ensures
            no_dup_views(r@),
            forall|x: Seq<char>|
                views(r@).contains(x) <==> self@.declarations.contains_key(x),
    {
        let r = crate::strkit::clone_strings(&self.decl_paths);
        proof {
            assert forall|i: int, j: int| 0 <= i < j < r@.len() implies r@[i]@ != r@[j]@ by {
                assert(views(r@).len() == r@.len());
                assert(views(self.decl_paths@).len() == self.decl_paths@.len());
                assert(j < self.decl_paths@.len());
                assert(views(r@)[i] == r@[i]@ && views(r@)[j] == r@[j]@);
                assert(views(self.decl_paths@)[i] == self.decl_paths@[i]@);
                assert(views(self.decl_paths@)[j] == self.decl_paths@[j]@);
            }
        }
        r
    }

    /// Every symbol path the usage map holds, one entry each.
    pub fn get_indexed_references(&self) -> (r: Vec<String>)
        requires
            self.wf(),
        ensures
            no_dup_views(r@),
            forall|x: Seq<char>|
                views(r@).contains(x) <==> self@.usages.contains_key(x),
    {
        let r = crate::strkit::clone_strings(&self.usage_paths);
        proof {
            assert forall|i: int, j: int| 0 <= i < j < r@.len() implies r@[i]@ != r@[j]@ by {
                assert(views(r@).len() == r@.len());
                assert(views(self.usage_paths@).len() == self.usage_paths@.len());
                assert(j < self.usage_paths@.len());
                assert(views(r@)[i] == r@[i]@ && views(r@)[j] == r@[j]@);
                assert(views(self.usage_paths@)[i] == self.usage_paths@[i]@);
                assert(views(self.usage_paths@)[j] == self.usage_paths@[j]@);
            }
        }
        r
    }
}


pub open spec fn opt_view(e: Option<&String>) -> Option<Seq<char>> {
    match e {
        Some(p) => Some(p@),
        None => None,
    }
}

pub open spec fn result_views(s: Seq<SymbolsSearchResultStruct>) -> Seq<SearchResultV> {
    s.map_values(|r: SymbolsSearchResultStruct| r@)
}

/// The score of a declaration candidate: the product of the query's
/// similarity to the whole symbol path and to the leaf name, each clamped
/// below to the smallest positive float.
pub open spec fn spec_decl_score(q: Seq<char>, key: Seq<char>, name: Seq<char>) -> u128 {
    crate::score::spec_sim_product(
        crate::score::jw_sim_of(q, key),
        crate::score::jw_sim_of(q, name),
    )
}

/// What a search answer drawn from the key `k` must hold: the record at `k`,
/// its captured content, and the score of `k` against the query.
pub open spec fn decl_candidate_for_key(
    v: AstIndexV,
    q: Seq<char>,
    c: SearchResultV,
    k: Seq<char>,
) -> bool {
    &&& v.declarations.contains_key(k)
    &&& v.declarations[k].meta_path.len() > 0
    &&& c.symbol_declaration == v.declarations[k]
    &&& c.content == v.declarations[k].content
    &&& c.sim_to_query == spec_decl_score(q, k, v.declarations[k].name)
}

/// A declaration search answer witnessed by the file `f`: some key of `f`'s
/// declaration keyset matches the query's automaton and resolves to the
/// answer's record. The exception file witnesses nothing.
pub open spec fn is_decl_candidate_at(
    v: AstIndexV,
    q: Seq<char>,
    exc: Option<Seq<char>>,
    c: SearchResultV,
    f: Seq<char>,
) -> bool {
    &&& v.files.contains_key(f)
    &&& Some(f) != exc
    &&& exists|k: Seq<char>|
        #[trigger] ci_match(q, k) && v.files[f].decl_keys.contains(k) && decl_candidate_for_key(
            v,
            q,
            c,
            k,
        )
}

pub open spec fn is_decl_candidate(
    v: AstIndexV,
    q: Seq<char>,
    exc: Option<Seq<char>>,
    c: SearchResultV,
) -> bool {
    exists|f: Seq<char>| #[trigger] is_decl_candidate_at(v, q, exc, c, f)
}

/// What a usage search answer drawn from the bucket entry `u` must hold: the
/// usage is linked, its declaration's record is the answer, and the score is
/// the query's similarity to the usage's own path.
pub open spec fn usage_candidate_entry(
    v: AstIndexV,
    q: Seq<char>,
    c: SearchResultV,
    u: UsageV,
) -> bool {
    &&& u.symbol_path.len() > 0
    &&& u.declaration_symbol_path is Some
    &&& v.declarations.contains_key(u.declaration_symbol_path.unwrap())
    &&& c.symbol_declaration == v.declarations[u.declaration_symbol_path.unwrap()]
    &&& c.content == v.declarations[u.declaration_symbol_path.unwrap()].content
    &&& c.sim_to_query == crate::score::jw_sim_of(q, u.symbol_path) as u128
}

pub open spec fn usage_candidate_for_key(
    v: AstIndexV,
    q: Seq<char>,
    c: SearchResultV,
    k: Seq<char>,
) -> bool {
    &&& v.usages.contains_key(k)
    &&& exists|j: int|
        0 <= j < v.usages[k].len() && usage_candidate_entry(v, q, c, #[trigger] v.usages[k][j])
}

pub open spec fn is_usage_candidate_at(
    v: AstIndexV,
    q: Seq<char>,
    exc: Option<Seq<char>>,
    c: SearchResultV,
    f: Seq<char>,
) -> bool {
    &&& v.files.contains_key(f)
    &&& Some(f) != exc
    &&& exists|k: Seq<char>|
        #[trigger] ci_match(q, k) && v.files[f].usage_keys.contains(k) && usage_candidate_for_key(
            v,
            q,
            c,
            k,
        )
}

pub open spec fn is_usage_candidate(
    v: AstIndexV,
    q: Seq<char>,
    exc: Option<Seq<char>>,
    c: SearchResultV,
) -> bool {
    exists|f: Seq<char>| #[trigger] is_usage_candidate_at(v, q, exc, c, f)
}

/// Scores never increase along the sequence.
pub open spec fn sorted_desc(rs: Seq<SearchResultV>) -> bool {
    forall|i: int, j: int| 0 <= i < j < rs.len() ==> rs[i].sim_to_query >= rs[j].sim_to_query
}

/// What both searches promise of an answer list: at most `top_n` answers,
/// scores non-increasing, every answer a candidate; when fewer answers than
/// `top_n` came back, every candidate is among them, and a candidate left
/// out never outscores the last answer.
pub open spec fn spec_search_post(
    top_n: int,
    rs: Seq<SearchResultV>,
    cand: spec_fn(SearchResultV) -> bool,
) -> bool {
    &&& rs.len() <= top_n
    &&& sorted_desc(rs)
    &&& forall|i: int| 0 <= i < rs.len() ==> cand(#[trigger] rs[i])
    &&& (rs.len() < top_n ==> (forall|c: SearchResultV| #[trigger] cand(c) ==> rs.contains(c)))
    &&& forall|c: SearchResultV|
        #[trigger] cand(c) && !rs.contains(c) && rs.len() > 0 ==> c.sim_to_query <= rs[rs.len()
            - 1].sim_to_query
}

fn insert_result_desc(out: &mut Vec<SymbolsSearchResultStruct>, x: SymbolsSearchResultStruct)
    requires
        sorted_desc(result_views(old(out)@)),
    ensures
        sorted_desc(result_views(final(out)@)),
        final(out)@.len() == old(out)@.len() + 1,
        forall|c: SearchResultV|
            result_views(final(out)@).contains(c) <==> (result_views(old(out)@).contains(c) || c
                == x@),
{
    let ghost ov = result_views(old(out)@);
    let mut j: usize = 0;
    loop
        invariant
            j <= out.len(),
            *out == *old(out),
            ov == result_views(out@),
            forall|k: int| 0 <= k < j ==> ov[k].sim_to_query >= x@.sim_to_query,
        ensures
            j <= out.len(),
            *out == *old(out),
            forall|k: int| 0 <= k < j ==> ov[k].sim_to_query >= x@.sim_to_query,
            j < out.len() ==> ov[j as int].sim_to_query < x@.sim_to_query,
        decreases out.len() - j,
    {
        if j == out.len() {
            break;
        }
        if out[j].sim_to_query < x.sim_to_query {
            break;
        }
        proof {
            assert(ov[j as int].sim_to_query == out@[j as int]@.sim_to_query);
        }
        j = j + 1;
    }
    let ghost xv = x@;
    out.insert(j, x);
    proof {
        let nv = result_views(out@);
        assert(nv.len() == ov.len() + 1);
        assert(forall|k: int| 0 <= k < j ==> nv[k] == ov[k]);
        assert(nv[j as int] == xv);
        assert(forall|k: int| j < k < nv.len() ==> nv[k] == ov[k - 1]);
        assert forall|p: int, q: int|
            0 <= p < q < nv.len() implies nv[p].sim_to_query >= nv[q].sim_to_query by {
            if q < j {
            } else if p < j && q == j {
            } else if p < j && q > j {
                assert(nv[q] == ov[q - 1]);
            } else if p == j {
                assert(nv[q] == ov[q - 1]);
                assert(ov[j as int].sim_to_query >= ov[q - 1].sim_to_query);
            }
        }
        assert forall|c: SearchResultV| nv.contains(c) implies (ov.contains(c) || c == xv) by {
            let k = choose|k: int| 0 <= k < nv.len() && (#[trigger] nv[k]) == c;
            if k < j {
                assert(ov[k] == c);
            } else if k > j {
                assert(ov[k - 1] == c);
            }
        }
        assert forall|c: SearchResultV| ov.contains(c) implies nv.contains(c) by {
            let k = choose|k: int| 0 <= k < ov.len() && (#[trigger] ov[k]) == c;
            if k < j {
                assert(nv[k] == c);
            } else {
                assert(nv[k + 1] == c);
            }
        }
        assert(nv.contains(xv)) by {
            assert(nv[j as int] == xv);
        }
    }
}

/// Sorts answers by descending score, then keeps the first `top_n`.
fn rank_results(mut v: Vec<SymbolsSearchResultStruct>, top_n: usize) -> (r: Vec<
    SymbolsSearchResultStruct,
>)
    ensures
        r@.len() == vstd::math::min(v@.len() as int, top_n as int),
        sorted_desc(result_views(r@)),
        forall|i: int| 0 <= i < r@.len() ==> result_views(v@).contains(#[trigger] result_views(
            r@,
        )[i]),
        r@.len() < top_n ==> (forall|c: SearchResultV|
            result_views(v@).contains(c) ==> result_views(r@).contains(c)),
        forall|c: SearchResultV|
            result_views(v@).contains(c) && !result_views(r@).contains(c) && r@.len() > 0
                ==> c.sim_to_query <= result_views(r@)[r@.len() - 1].sim_to_query,
{
    let ghost input = result_views(v@);
    let mut sorted: Vec<SymbolsSearchResultStruct> = Vec::new();
    proof {
        assert(result_views(sorted@) =~= Seq::<SearchResultV>::empty());
        assert(v@.take(v@.len() as int) =~= v@);
    }
    while v.len() > 0
        invariant
            sorted_desc(result_views(sorted@)),
            sorted@.len() + v@.len() == input.len(),
            forall|c: SearchResultV|
                (result_views(sorted@).contains(c) || result_views(v@).contains(c)) <==> input.contains(c),
        decreases v.len(),
    {
        let ghost vv = result_views(v@);
        let x = match v.pop() {
            Some(x) => x,
            None => {
                proof {
                    assert(false);
                }
                unreached()
            },
        };
        proof {
            assert(result_views(v@) =~= vv.drop_last());
            assert(x@ == vv.last());
            assert forall|c: SearchResultV| vv.contains(c) implies (vv.drop_last().contains(c) || c
                == x@) by {
                let k = choose|k: int| 0 <= k < vv.len() && (#[trigger] vv[k]) == c;
                if k < vv.len() - 1 {
                    assert(vv.drop_last()[k] == c);
                }
            }
            assert forall|c: SearchResultV| vv.drop_last().contains(c) implies vv.contains(c) by {
                let k = choose|k: int|
                    0 <= k < vv.drop_last().len() && (#[trigger] vv.drop_last()[k]) == c;
                assert(vv[k] == c);
            }
            assert(vv.contains(x@)) by {
                assert(vv[vv.len() - 1] == x@);
            }
        }
        insert_result_desc(&mut sorted, x);
    }
    proof {
        assert(result_views(v@).len() == 0);
        assert forall|c: SearchResultV| input.contains(c) implies result_views(sorted@).contains(
            c,
        ) by {
            assert(!result_views(v@).contains(c));
        }
    }
    let mut r: Vec<SymbolsSearchResultStruct> = Vec::new();
    let mut i: usize = 0;
    while i < sorted.len() && i < top_n
        invariant
            i <= sorted.len(),
            i <= top_n,
            r@.len() == i,
            forall|k: int| 0 <= k < i ==> r@[k]@ == result_views(sorted@)[k],
            sorted_desc(result_views(sorted@)),
            forall|c: SearchResultV|
                result_views(sorted@).contains(c) <==> input.contains(c),
        decreases sorted.len() - i,
    {
        let x = duplicate_result(&sorted[i]);
        r.push(x);
        i = i + 1;
    }
    proof {
        let rv = result_views(r@);
        let sv = result_views(sorted@);
        assert(rv.len() == vstd::math::min(input.len() as int, top_n as int));
        assert(forall|k: int| 0 <= k < rv.len() ==> rv[k] == sv[k]);
        assert forall|c: SearchResultV|
            input.contains(c) && !rv.contains(c) && rv.len() > 0 implies c.sim_to_query <= rv[
            rv.len() - 1].sim_to_query by {
            let k = choose|k: int| 0 <= k < sv.len() && (#[trigger] sv[k]) == c;
            if k < rv.len() {
                assert(rv[k] == c);
            } else {
                assert(sv[k].sim_to_query <= sv[rv.len() - 1].sim_to_query);
            }
        }
        assert forall|c: SearchResultV| rv.len() < top_n && input.contains(c) implies rv.contains(
            c,
        ) by {
            let k = choose|k: int| 0 <= k < sv.len() && (#[trigger] sv[k]) == c;
            assert(rv[k] == c);
        }
        assert forall|i0: int| 0 <= i0 < rv.len() implies input.contains(#[trigger] rv[i0]) by {
            assert(rv[i0] == sv[i0]);
            assert(sv.contains(sv[i0])) by {
                assert(sv[i0] == sv[i0]);
            }
        }
    }
    r
}

/// A field-for-field copy of a search answer.
fn duplicate_result(x: &SymbolsSearchResultStruct) -> (r: SymbolsSearchResultStruct)
    ensures
        r@ == x@,
{
    SymbolsSearchResultStruct {
        symbol_declaration: x.symbol_declaration.duplicate(),
        content: x.content.clone(),
        sim_to_query: x.sim_to_query,
    }
}


pub open spec fn decl_views(s: Seq<SymbolDeclarationStruct>) -> Seq<DeclV> {
    s.map_values(|d: SymbolDeclarationStruct| d@)
}

/// The records found at the given keys, in key order, keys the map lacks
/// skipped.
pub open spec fn spec_collect_decls(keys: Seq<Seq<char>>, m: Map<Seq<char>, DeclV>) -> Seq<DeclV>
    decreases keys,
{
    if keys.len() == 0 {
        Seq::empty()
    } else {
        spec_collect_decls(keys.drop_last(), m) + (if m.contains_key(keys.last()) {
            seq![m[keys.last()]]
        } else {
            Seq::empty()
        })
    }
}

impl AstIndex {
    fn collect_decl_candidates(&self, query: &String, exception_file: Option<&String>) -> (out:
        Vec<SymbolsSearchResultStruct>)
        requires
            self.wf(),
            regex_ok(query@),
        ensures
            forall|i: int|
                0 <= i < out@.len() ==> is_decl_candidate(
                    self@,
                    query@,
                    opt_view(exception_file),
                    #[trigger] result_views(out@)[i],
                ),
            forall|c: SearchResultV|
                is_decl_candidate(self@, query@, opt_view(exception_file), c)
                    ==> result_views(out@).contains(c),
    {
        let ghost v = self@;
        let ghost exc = opt_view(exception_file);
        let mut out: Vec<SymbolsSearchResultStruct> = Vec::new();
        let mut fi: usize = 0;
        while fi < self.files.len()
            invariant
                self.wf(),
                v == self@,
                exc == opt_view(exception_file),
                regex_ok(query@),
                fi <= self.files@.len(),
                forall|i: int|
                    0 <= i < out@.len() ==> is_decl_candidate(
                        v,
                        query@,
                        exc,
                        #[trigger] result_views(out@)[i],
                    ),
                forall|c: SearchResultV, idx: int|
                    0 <= idx < fi && #[trigger] is_decl_candidate_at(
                        v,
                        query@,
                        exc,
                        c,
                        self.files@[idx].path@,
                    ) ==> result_views(out@).contains(c),
            decreases self.files@.len() - fi,
        {
            proof {
                lemma_files_map_lookup(self.files@, fi as int);
            }
            let entry = &self.files[fi];
            let ghost f = entry.path@;
            let skip = match exception_file {
                Some(e) => str_eq(entry.path.as_str(), e.as_str()),
                None => false,
            };
            if !skip {
                let found = search_keyset(&entry.decl_set, query.as_str());
                proof {
                    assert(fst_keys(entry.decl_set) == v.files[f].decl_keys);
                }
                let mut j: usize = 0;
                while j < found.len()
                    invariant
                        self.wf(),
                        v == self@,
                        exc == opt_view(exception_file),
                        regex_ok(query@),
                        fi < self.files@.len(),
                        j <= found@.len(),
                        f == self.files@[fi as int].path@,
                        Some(f) != exc,
                        v.files.contains_key(f),
                        forall|x: Seq<char>|
                            #[trigger] views(found@).contains(x) <==> (v.files[f].decl_keys.contains(
                                x,
                            ) && ci_match(query@, x)),
                        forall|i: int|
                            0 <= i < out@.len() ==> is_decl_candidate(
                                v,
                                query@,
                                exc,
                                #[trigger] result_views(out@)[i],
                            ),
                        forall|c: SearchResultV, idx: int|
                            0 <= idx < fi && #[trigger] is_decl_candidate_at(
                                v,
                                query@,
                                exc,
                                c,
                                self.files@[idx].path@,
                            ) ==> result_views(out@).contains(c),
                        forall|c: SearchResultV, k: int|
                            0 <= k < j && #[trigger] decl_candidate_for_key(
                                v,
                                query@,
                                c,
                                views(found@)[k],
                            ) ==> result_views(out@).contains(c),
                    decreases found@.len() - j,
                {
                    let key = &found[j];
                    let ghost kv = key@;
                    proof {
                        assert(views(found@)[j as int] == kv);
                    }
                    match self.declarations.get(key.as_str()) {
                        Some(d) => {
                            proof {
                                assert(v.declarations.contains_key(kv));
                                assert(v.declarations[kv] == d@);
                            }
                            if d.meta_path.as_str().unicode_len() > 0 {
                                let s1 = crate::score::jw_sim(query.as_str(), key.as_str());
                                let s2 = crate::score::jw_sim(query.as_str(), d.name.as_str());
                                let score = crate::score::sim_product(s1, s2);
                                let res = SymbolsSearchResultStruct {
                                    symbol_declaration: d.duplicate(),
                                    content: d.get_content(),
                                    sim_to_query: score,
                                };
                                let ghost prev = result_views(out@);
                                proof {
                                    assert(decl_candidate_for_key(v, query@, res@, kv));
                                    assert(views(found@).contains(kv)) by {
                                        assert(views(found@)[j as int] == kv);
                                    }
                                    assert(ci_match(query@, kv) && v.files[f].decl_keys.contains(
                                        kv,
                                    ));
                                    assert(is_decl_candidate_at(v, query@, exc, res@, f));
                                    assert(is_decl_candidate(v, query@, exc, res@));
                                }
                                out.push(res);
                                proof {
                                    assert(result_views(out@) =~= prev.push(res@));
                                    assert forall|c: SearchResultV| prev.contains(
                                        c,
                                    ) implies result_views(out@).contains(c) by {
                                        let k0 = choose|k0: int|
                                            0 <= k0 < prev.len() && (#[trigger] prev[k0]) == c;
                                        assert(result_views(out@)[k0] == c);
                                    }
                                    assert(result_views(out@).contains(res@)) by {
                                        assert(result_views(out@)[prev.len() as int] == res@);
                                    }
                                    assert forall|c: SearchResultV, k: int|
                                        0 <= k < j + 1 && #[trigger] decl_candidate_for_key(
                                            v,
                                            query@,
                                            c,
                                            views(found@)[k],
                                        ) implies result_views(out@).contains(c) by {
                                        if k == j {
                                            assert(c == res@);
                                        }
                                    }
                                }
                            } else {
                                proof {
                                    assert(v.declarations[kv].meta_path.len() == 0);
                                    assert forall|c: SearchResultV, k: int|
                                        0 <= k < j + 1 && #[trigger] decl_candidate_for_key(
                                            v,
                                            query@,
                                            c,
                                            views(found@)[k],
                                        ) implies result_views(out@).contains(c) by {}
                                }
                            }
                        },
                        None => {
                            proof {
                                assert(!v.declarations.contains_key(kv));
                                assert forall|c: SearchResultV, k: int|
                                    0 <= k < j + 1 && #[trigger] decl_candidate_for_key(
                                        v,
                                        query@,
                                        c,
                                        views(found@)[k],
                                    ) implies result_views(out@).contains(c) by {}
                            }
                        },
                    }
                    j = j + 1;
                }
                proof {
                    assert forall|c: SearchResultV, idx: int|
                        0 <= idx < fi + 1 && #[trigger] is_decl_candidate_at(
                            v,
                            query@,
                            exc,
                            c,
                            self.files@[idx].path@,
                        ) implies result_views(out@).contains(c) by {
                        if idx == fi {
                            let k = choose|k: Seq<char>|
                                #[trigger] ci_match(query@, k) && v.files[f].decl_keys.contains(k)
                                    && decl_candidate_for_key(v, query@, c, k);
                            assert(views(found@).contains(k));
                            let kj = choose|kj: int|
                                0 <= kj < found@.len() && (#[trigger] views(found@)[kj]) == k;
                            assert(decl_candidate_for_key(v, query@, c, views(found@)[kj]));
                        }
                    }
                }
            } else {
                proof {
                    assert(Some(f) == exc);
                    assert forall|c: SearchResultV, idx: int|
                        0 <= idx < fi + 1 && #[trigger] is_decl_candidate_at(
                            v,
                            query@,
                            exc,
                            c,
                            self.files@[idx].path@,
                        ) implies result_views(out@).contains(c) by {}
                }
            }
            fi = fi + 1;
        }
        proof {
            assert forall|c: SearchResultV|
                is_decl_candidate(v, query@, exc, c) implies result_views(out@).contains(c) by {
                let f0 = choose|f0: Seq<char>| #[trigger] is_decl_candidate_at(v, query@, exc, c, f0);
                lemma_files_map_contains(self.files@, f0);
                let idx = choose|idx: int|
                    0 <= idx < self.files@.len() && (#[trigger] self.files@[idx]).path@ == f0;
                assert(is_decl_candidate_at(v, query@, exc, c, self.files@[idx].path@));
            }
        }
        out
    }

    /// Finds declarations whose symbol paths match the query, read as a
    /// case-insensitive regular expression, ranked by falling similarity of
    /// the query to the path and the leaf name; keys contributed by the
    /// exception file alone are never returned.
    pub fn search_declarations(
        &self,
        query: &String,
        top_n: usize,
        exception_file: Option<&String>,
    ) -> (r: Result<Vec<SymbolsSearchResultStruct>, AstError>)
        requires
            self.wf(),
        ensures
            match r {
                Ok(res) => regex_ok(query@) && spec_search_post(
                    top_n as int,
                    result_views(res@),
                    (|c: SearchResultV| is_decl_candidate(self@, query@, opt_view(exception_file), c)),
                ),
                Err(e) => e == AstError::InvalidQuery && !regex_ok(query@),
            },
    {
        if !regex_check(query.as_str()) {
            return Err(AstError::InvalidQuery);
        }
        let candidates = self.collect_decl_candidates(query, exception_file);
        let res = rank_results(candidates, top_n);
        Ok(res)
    }
}


impl AstIndex {
    fn collect_usage_candidates(&self, query: &String, exception_file: Option<&String>) -> (out:
        Vec<SymbolsSearchResultStruct>)
        requires
            self.wf(),
            regex_ok(query@),
        ensures
            forall|i: int|
                0 <= i < out@.len() ==> is_usage_candidate(
                    self@,
                    query@,
                    opt_view(exception_file),
                    #[trigger] result_views(out@)[i],
                ),
            forall|c: SearchResultV|
                is_usage_candidate(self@, query@, opt_view(exception_file), c)
                    ==> result_views(out@).contains(c),
    {
        let ghost v = self@;
        let ghost exc = opt_view(exception_file);
        let mut out: Vec<SymbolsSearchResultStruct> = Vec::new();
        let mut fi: usize = 0;
        while fi < self.files.len()
            invariant
                self.wf(),
                v == self@,
                exc == opt_view(exception_file),
                regex_ok(query@),
                fi <= self.files@.len(),
                forall|i: int|
                    0 <= i < out@.len() ==> is_usage_candidate(
                        v,
                        query@,
                        exc,
                        #[trigger] result_views(out@)[i],
                    ),
                forall|c: SearchResultV, idx: int|
                    0 <= idx < fi && #[trigger] is_usage_candidate_at(
                        v,
                        query@,
                        exc,
                        c,
                        self.files@[idx].path@,
                    ) ==> result_views(out@).contains(c),
            decreases self.files@.len() - fi,
        {
            proof {
                lemma_files_map_lookup(self.files@, fi as int);
            }
            let entry = &self.files[fi];
            let ghost f = entry.path@;
            let skip = match exception_file {
                Some(e) => str_eq(entry.path.as_str(), e.as_str()),
                None => false,
            };
            if !skip {
                let found = search_keyset(&entry.usage_set, query.as_str());
                proof {
                    assert(fst_keys(entry.usage_set) == v.files[f].usage_keys);
                }
                let mut j: usize = 0;
                while j < found.len()
                    invariant
                        self.wf(),
                        v == self@,
                        exc == opt_view(exception_file),
                        regex_ok(query@),
                        fi < self.files@.len(),
                        j <= found@.len(),
                        f == self.files@[fi as int].path@,
                        Some(f) != exc,
                        v.files.contains_key(f),
                        forall|x: Seq<char>|
                            #[trigger] views(found@).contains(x) <==> (v.files[
                                f].usage_keys.contains(x) && ci_match(query@, x)),
                        forall|i: int|
                            0 <= i < out@.len() ==> is_usage_candidate(
                                v,
                                query@,
                                exc,
                                #[trigger] result_views(out@)[i],
                            ),
                        forall|c: SearchResultV, idx: int|
                            0 <= idx < fi && #[trigger] is_usage_candidate_at(
                                v,
                                query@,
                                exc,
                                c,
                                self.files@[idx].path@,
                            ) ==> result_views(out@).contains(c),
                        forall|c: SearchResultV, k: int|
                            0 <= k < j && #[trigger] usage_candidate_for_key(
                                v,
                                query@,
                                c,
                                views(found@)[k],
                            ) ==> result_views(out@).contains(c),
                    decreases found@.len() - j,
                {
                    let key = &found[j];
                    let ghost kv = key@;
                    proof {
                        assert(views(found@)[j as int] == kv);
                    }
                    match self.usages.get(key.as_str()) {
                        Some(bucket) => {
                            proof {
                                assert(v.usages.contains_key(kv));
                                assert(v.usages[kv] == usage_views(bucket@));
                            }
                            let mut b: usize = 0;
                            while b < bucket.len()
                                invariant
                                    self.wf(),
                                    v == self@,
                                    exc == opt_view(exception_file),
                                    b <= bucket@.len(),
                                    v.usages.contains_key(kv),
                                    v.usages[kv] == usage_views(bucket@),
                                    forall|i: int|
                                        0 <= i < out@.len() ==> is_usage_candidate(
                                            v,
                                            query@,
                                            exc,
                                            #[trigger] result_views(out@)[i],
                                        ),
                                    fi < self.files@.len(),
                                    f == self.files@[fi as int].path@,
                                    Some(f) != exc,
                                    v.files.contains_key(f),
                                    forall|x: Seq<char>|
                                        #[trigger] views(found@).contains(x) <==> (v.files[
                                            f].usage_keys.contains(x) && ci_match(query@, x)),
                                    views(found@)[j as int] == kv,
                                    j < found@.len(),
                                    forall|c: SearchResultV, idx: int|
                                        0 <= idx < fi && #[trigger] is_usage_candidate_at(
                                            v,
                                            query@,
                                            exc,
                                            c,
                                            self.files@[idx].path@,
                                        ) ==> result_views(out@).contains(c),
                                    forall|c: SearchResultV, k: int|
                                        0 <= k < j && #[trigger] usage_candidate_for_key(
                                            v,
                                            query@,
                                            c,
                                            views(found@)[k],
                                        ) ==> result_views(out@).contains(c),
                                    forall|c: SearchResultV, bj: int|
                                        0 <= bj < b && #[trigger] usage_candidate_entry(
                                            v,
                                            query@,
                                            c,
                                            usage_views(bucket@)[bj],
                                        ) ==> result_views(out@).contains(c),
                                decreases bucket@.len() - b,
                            {
                                let u = &bucket[b];
                                let ghost uv = u@;
                                proof {
                                    assert(usage_views(bucket@)[b as int] == uv);
                                }
                                let mut pushed = false;
                                if u.symbol_path.as_str().unicode_len() > 0 {
                                    match u.get_declaration_meta_path() {
                                        Some(dp) => {
                                            match self.declarations.get(dp.as_str()) {
                                                Some(rec) => {
                                                    proof {
                                                        assert(v.declarations.contains_key(dp@));
                                                        assert(v.declarations[dp@] == rec@);
                                                        assert(uv.declaration_symbol_path
                                                            == Some(dp@));
                                                    }
                                                    let s = crate::score::jw_sim(
                                                        query.as_str(),
                                                        u.symbol_path.as_str(),
                                                    );
                                                    let res = SymbolsSearchResultStruct {
                                                        symbol_declaration: rec.duplicate(),
                                                        content: rec.get_content(),
                                                        sim_to_query: s as u128,
                                                    };
                                                    let ghost prev = result_views(out@);
                                                    proof {
                                                        assert(usage_candidate_entry(
                                                            v,
                                                            query@,
                                                            res@,
                                                            uv,
                                                        ));
                                                        assert(usage_candidate_for_key(
                                                            v,
                                                            query@,
                                                            res@,
                                                            kv,
                                                        )) by {
                                                            assert(usage_views(bucket@)[b as int]
                                                                == uv);
                                                        }
                                                        assert(views(found@).contains(kv)) by {
                                                            assert(views(found@)[j as int] == kv);
                                                        }
                                                        assert(is_usage_candidate_at(
                                                            v,
                                                            query@,
                                                            exc,
                                                            res@,
                                                            f,
                                                        ));
                                                        assert(is_usage_candidate(
                                                            v,
                                                            query@,
                                                            exc,
                                                            res@,
                                                        ));
                                                    }
                                                    out.push(res);
                                                    pushed = true;
                                                    proof {
                                                        assert(result_views(out@) =~= prev.push(
                                                            res@,
                                                        ));
                                                        assert forall|c: SearchResultV|
                                                            prev.contains(c) implies result_views(
                                                            out@,
                                                        ).contains(c) by {
                                                            let k0 = choose|k0: int|
                                                                0 <= k0 < prev.len() && (
                                                                #[trigger] prev[k0]) == c;
                                                            assert(result_views(out@)[k0] == c);
                                                        }
                                                        assert(result_views(out@).contains(res@))
                                                            by {
                                                            assert(result_views(out@)[prev.len()
                                                                as int] == res@);
                                                        }
                                                        assert forall|c: SearchResultV|
                                                            usage_candidate_entry(
                                                                v,
                                                                query@,
                                                                c,
                                                                uv,
                                                            ) implies c == res@ by {}
                                                    }
                                                },
                                                None => {
                                                    proof {
                                                        assert(!v.declarations.contains_key(dp@));
                                                        assert(uv.declaration_symbol_path
                                                            == Some(dp@));
                                                        assert(forall|c: SearchResultV|
                                                            !(#[trigger] usage_candidate_entry(
                                                                v,
                                                                query@,
                                                                c,
                                                                uv,
                                                            )));
                                                    }
                                                },
                                            }
                                        },
                                        None => {
                                            proof {
                                                assert(uv.declaration_symbol_path is None);
                                            }
                                        },
                                    }
                                } else {
                                    proof {
                                        assert(uv.symbol_path.len() == 0);
                                    }
                                }
                                proof {
                                    assert forall|c: SearchResultV, bj: int|
                                        0 <= bj < b + 1 && #[trigger] usage_candidate_entry(
                                            v,
                                            query@,
                                            c,
                                            usage_views(bucket@)[bj],
                                        ) implies result_views(out@).contains(c) by {}
                                }
                                b = b + 1;
                            }
                            proof {
                                assert forall|c: SearchResultV, k: int|
                                    0 <= k < j + 1 && #[trigger] usage_candidate_for_key(
                                        v,
                                        query@,
                                        c,
                                        views(found@)[k],
                                    ) implies result_views(out@).contains(c) by {
                                    if k == j {
                                        let bj = choose|bj: int|
                                            0 <= bj < v.usages[kv].len() && usage_candidate_entry(
                                                v,
                                                query@,
                                                c,
                                                #[trigger] v.usages[kv][bj],
                                            );
                                        assert(usage_candidate_entry(
                                            v,
                                            query@,
                                            c,
                                            usage_views(bucket@)[bj],
                                        ));
                                    }
                                }
                            }
                        },
                        None => {
                            proof {
                                assert(!v.usages.contains_key(kv));
                                assert forall|c: SearchResultV, k: int|
                                    0 <= k < j + 1 && #[trigger] usage_candidate_for_key(
                                        v,
                                        query@,
                                        c,
                                        views(found@)[k],
                                    ) implies result_views(out@).contains(c) by {}
                            }
                        },
                    }
                    j = j + 1;
                }
                proof {
                    assert forall|c: SearchResultV, idx: int|
                        0 <= idx < fi + 1 && #[trigger] is_usage_candidate_at(
                            v,
                            query@,
                            exc,
                            c,
                            self.files@[idx].path@,
                        ) implies result_views(out@).contains(c) by {
                        if idx == fi {
                            let k = choose|k: Seq<char>|
                                #[trigger] ci_match(query@, k) && v.files[f].usage_keys.contains(k)
                                    && usage_candidate_for_key(v, query@, c, k);
                            assert(views(found@).contains(k));
                            let kj = choose|kj: int|
                                0 <= kj < found@.len() && (#[trigger] views(found@)[kj]) == k;
                            assert(usage_candidate_for_key(v, query@, c, views(found@)[kj]));
                        }
                    }
                }
            } else {
                proof {
                    assert(Some(f) == exc);
                    assert forall|c: SearchResultV, idx: int|
                        0 <= idx < fi + 1 && #[trigger] is_usage_candidate_at(
                            v,
                            query@,
                            exc,
                            c,
                            self.files@[idx].path@,
                        ) implies result_views(out@).contains(c) by {}
                }
            }
            fi = fi + 1;
        }
        proof {
            assert forall|c: SearchResultV|
                is_usage_candidate(v, query@, exc, c) implies result_views(out@).contains(c) by {
                let f0 = choose|f0: Seq<char>|
                    #[trigger] is_usage_candidate_at(v, query@, exc, c, f0);
                lemma_files_map_contains(self.files@, f0);
                let idx = choose|idx: int|
                    0 <= idx < self.files@.len() && (#[trigger] self.files@[idx]).path@ == f0;
                assert(is_usage_candidate_at(v, query@, exc, c, self.files@[idx].path@));
            }
        }
        out
    }

    /// Finds usages whose occurrence paths match the query, read as a
    /// case-insensitive regular expression, and returns the declarations
    /// the usages were linked to, ranked by falling similarity of the query
    /// to the occurrence path; unlinked usages, usages whose declaration is
    /// gone from the global map, and keys contributed by the exception file
    /// alone are never returned.
    pub fn search_usages(
        &self,
        query: &String,
        top_n: usize,
        exception_file: Option<&String>,
    ) -> (r: Result<Vec<SymbolsSearchResultStruct>, AstError>)
        requires
            self.wf(),
        ensures
            match r {
                Ok(res) => regex_ok(query@) && spec_search_post(
                    top_n as int,
                    result_views(res@),
                    (|c: SearchResultV| is_usage_candidate(self@, query@, opt_view(exception_file), c)),
                ),
                Err(e) => e == AstError::InvalidQuery && !regex_ok(query@),
            },
    {
        if !regex_check(query.as_str()) {
            return Err(AstError::InvalidQuery);
        }
        let candidates = self.collect_usage_candidates(query, exception_file);
        let res = rank_results(candidates, top_n);
        Ok(res)
    }

    /// Every declaration whose symbol path stands in the file's declaration
    /// keyset, in the keyset's order; keys the global map no longer holds
    /// are skipped. A file that was never added reports itself unindexed.
    pub fn get_symbols_by_file_path(&self, file_path: &String) -> (r: Result<
        Vec<SymbolDeclarationStruct>,
        AstError,
    >)
        requires
            self.wf(),
        ensures
            match r {
                Ok(rs) => self@.files.contains_key(file_path@) && (exists|keys: Seq<Seq<char>>|
                    #[trigger] strictly_sorted(keys) && keys.to_set() == self@.files[
                        file_path@].decl_keys && decl_views(rs@) == spec_collect_decls(
                        keys,
                        self@.declarations,
                    )),
                Err(e) => e == AstError::NotIndexed && !self@.files.contains_key(file_path@),
            },
    {
        proof {
            lemma_files_map_contains(self.files@, file_path@);
        }
        let idx = match self.find_file(file_path) {
            Some(i) => i,
            None => {
                return Err(AstError::NotIndexed);
            },
        };
        proof {
            lemma_files_map_lookup(self.files@, idx as int);
        }
        let entry = &self.files[idx];
        let ghost keys = views(entry.decl_keys@);
        let mut rs: Vec<SymbolDeclarationStruct> = Vec::new();
        let mut i: usize = 0;
        proof {
            assert(keys.take(0) =~= Seq::<Seq<char>>::empty());
            assert(decl_views(rs@) =~= spec_collect_decls(keys.take(0), self@.declarations));
        }
        while i < entry.decl_keys.len()
            invariant
                self.wf(),
                i <= entry.decl_keys@.len(),
                keys == views(entry.decl_keys@),
                decl_views(rs@) == spec_collect_decls(keys.take(i as int), self@.declarations),
            decreases entry.decl_keys@.len() - i,
        {
            let ghost prev = decl_views(rs@);
            proof {
                assert(keys.take(i + 1).drop_last() =~= keys.take(i as int));
                assert(keys.take(i + 1).last() == keys[i as int]);
                assert(keys[i as int] == entry.decl_keys@[i as int]@);
            }
            match self.declarations.get(entry.decl_keys[i].as_str()) {
                Some(d) => {
                    proof {
                        assert(self@.declarations.contains_key(keys[i as int]));
                        assert(self@.declarations[keys[i as int]] == d@);
                    }
                    rs.push(d.duplicate());
                    proof {
                        assert(decl_views(rs@) =~= prev.push(d@));
                        assert(prev + seq![d@] =~= prev.push(d@));
                    }
                },
                None => {
                    proof {
                        assert(!self@.declarations.contains_key(keys[i as int]));
                        assert(prev + Seq::<DeclV>::empty() =~= prev);
                    }
                },
            }
            i = i + 1;
        }
        proof {
            assert(keys.take(keys.len() as int) =~= keys);
        }
        Ok(rs)
    }
}


proof fn lemma_keys_of_index(ds: Seq<(Seq<char>, DeclV)>, k: Seq<char>)
    ensures
        keys_of(ds).contains(k) <==> exists|i: int| 0 <= i < ds.len() && (#[trigger] ds[i]).0 == k,
{
    if keys_of(ds).contains(k) {
        let i = choose|i: int| 0 <= i < keys_of(ds).len() && (#[trigger] keys_of(ds)[i]) == k;
        assert(ds[i].0 == k);
    }
    if exists|i: int| 0 <= i < ds.len() && (#[trigger] ds[i]).0 == k {
        let i = choose|i: int| 0 <= i < ds.len() && (#[trigger] ds[i]).0 == k;
        assert(keys_of(ds)[i] == k);
    }
}

proof fn lemma_ukeys_of_index(us: Seq<UsageV>, k: Seq<char>)
    ensures
        usage_keys_of(us).contains(k) <==> exists|i: int|
            0 <= i < us.len() && (#[trigger] us[i]).symbol_path == k,
{
    if usage_keys_of(us).contains(k) {
        let i = choose|i: int|
            0 <= i < usage_keys_of(us).len() && (#[trigger] usage_keys_of(us)[i]) == k;
        assert(us[i].symbol_path == k);
    }
    if exists|i: int| 0 <= i < us.len() && (#[trigger] us[i]).symbol_path == k {
        let i = choose|i: int| 0 <= i < us.len() && (#[trigger] us[i]).symbol_path == k;
        assert(usage_keys_of(us)[i] == k);
    }
}

proof fn lemma_insert_decls_contains(m: Map<Seq<char>, DeclV>, ds: Seq<(Seq<char>, DeclV)>)
    ensures
        forall|k: Seq<char>|
            #[trigger] spec_insert_decls(m, ds).contains_key(k) <==> (m.contains_key(k) || keys_of(
                ds,
            ).contains(k)),
        forall|k: Seq<char>|
            !keys_of(ds).contains(k) && m.contains_key(k) ==> spec_insert_decls(m, ds)[k] == m[k],
    decreases ds,
{
    if ds.len() > 0 {
        lemma_insert_decls_contains(m, ds.drop_last());
        assert forall|k: Seq<char>| true implies {
            &&& (#[trigger] spec_insert_decls(m, ds).contains_key(k) <==> (k == ds.last().0
                || spec_insert_decls(m, ds.drop_last()).contains_key(k)))
            &&& (k != ds.last().0 && spec_insert_decls(m, ds.drop_last()).contains_key(k)
                ==> spec_insert_decls(m, ds)[k] == spec_insert_decls(m, ds.drop_last())[k])
        } by {
            assert(spec_insert_decls(m, ds) == spec_insert_decls(m, ds.drop_last()).insert(
                ds.last().0,
                ds.last().1,
            ));
        }
        assert forall|k: Seq<char>| true implies (#[trigger] keys_of(ds).contains(k) <==> (keys_of(
            ds.drop_last(),
        ).contains(k) || k == ds.last().0)) by {
            lemma_keys_of_index(ds, k);
            lemma_keys_of_index(ds.drop_last(), k);
            if exists|i: int| 0 <= i < ds.drop_last().len() && (#[trigger] ds.drop_last()[i]).0
                == k {
                let i = choose|i: int|
                    0 <= i < ds.drop_last().len() && (#[trigger] ds.drop_last()[i]).0 == k;
                assert(ds[i].0 == k);
            }
            if exists|i: int| 0 <= i < ds.len() && (#[trigger] ds[i]).0 == k {
                let i = choose|i: int| 0 <= i < ds.len() && (#[trigger] ds[i]).0 == k;
                if i < ds.len() - 1 {
                    assert(ds.drop_last()[i].0 == k);
                }
            }
        }
    }
}

proof fn lemma_insert_decls_lookup(m: Map<Seq<char>, DeclV>, ds: Seq<(Seq<char>, DeclV)>, k: Seq<char>)
    requires
        keys_of(ds).contains(k),
    ensures
        spec_insert_decls(m, ds).contains_key(k),
        exists|i: int|
            0 <= i < ds.len() && (#[trigger] ds[i]).0 == k && spec_insert_decls(m, ds)[k] == ds[
                i].1,
    decreases ds,
{
    lemma_insert_decls_contains(m, ds);
    lemma_keys_of_index(ds, k);
    if ds.last().0 == k {
        let i = ds.len() - 1;
        assert(ds[i].0 == k && spec_insert_decls(m, ds)[k] == ds[i].1);
    } else {
        assert(keys_of(ds.drop_last()).contains(k)) by {
            lemma_keys_of_index(ds.drop_last(), k);
            let i = choose|i: int| 0 <= i < ds.len() && (#[trigger] ds[i]).0 == k;
            assert(ds.drop_last()[i].0 == k);
        }
        lemma_insert_decls_lookup(m, ds.drop_last(), k);
        let i = choose|i: int|
            0 <= i < ds.drop_last().len() && (#[trigger] ds.drop_last()[i]).0 == k
                && spec_insert_decls(m, ds.drop_last())[k] == ds.drop_last()[i].1;
        assert(ds[i].0 == k && spec_insert_decls(m, ds)[k] == ds[i].1);
    }
}

/// The two declaration maps an insertion run starts from do not matter at
/// the inserted keys: there the result is decided by the pairs alone.
proof fn lemma_insert_decls_same(
    m1: Map<Seq<char>, DeclV>,
    m2: Map<Seq<char>, DeclV>,
    ds: Seq<(Seq<char>, DeclV)>,
    k: Seq<char>,
)
    requires
        keys_of(ds).contains(k),
    ensures
        spec_insert_decls(m1, ds)[k] == spec_insert_decls(m2, ds)[k],
    decreases ds,
{
    lemma_keys_of_index(ds, k);
    if ds.last().0 == k {
    } else {
        assert(keys_of(ds.drop_last()).contains(k)) by {
            lemma_keys_of_index(ds.drop_last(), k);
            let i = choose|i: int| 0 <= i < ds.len() && (#[trigger] ds[i]).0 == k;
            assert(ds.drop_last()[i].0 == k);
        }
        lemma_insert_decls_same(m1, m2, ds.drop_last(), k);
    }
}

proof fn lemma_insert_usages_contains(m: Map<Seq<char>, Seq<UsageV>>, us: Seq<UsageV>)
    ensures
        forall|k: Seq<char>|
            #[trigger] spec_insert_usages(m, us).contains_key(k) <==> (m.contains_key(k)
                || usage_keys_of(us).contains(k)),
        forall|k: Seq<char>|
            !usage_keys_of(us).contains(k) && m.contains_key(k) ==> spec_insert_usages(m, us)[k]
                == m[k],
    decreases us,
{
    if us.len() > 0 {
        lemma_insert_usages_contains(m, us.drop_last());
        assert forall|k: Seq<char>| true implies {
            &&& (#[trigger] spec_insert_usages(m, us).contains_key(k) <==> (k
                == us.last().symbol_path || spec_insert_usages(m, us.drop_last()).contains_key(k)))
            &&& (k != us.last().symbol_path && spec_insert_usages(m, us.drop_last()).contains_key(
                k,
            ) ==> spec_insert_usages(m, us)[k] == spec_insert_usages(m, us.drop_last())[k])
        } by {
            let m1 = spec_insert_usages(m, us.drop_last());
            let u = us.last();
            let bucket = if m1.contains_key(u.symbol_path) {
                m1[u.symbol_path]
            } else {
                Seq::empty()
            };
            assert(spec_insert_usages(m, us) == m1.insert(u.symbol_path, bucket.push(u)));
        }
        assert forall|k: Seq<char>| true implies (#[trigger] usage_keys_of(us).contains(k) <==> (
        usage_keys_of(us.drop_last()).contains(k) || k == us.last().symbol_path)) by {
            lemma_ukeys_of_index(us, k);
            lemma_ukeys_of_index(us.drop_last(), k);
            if exists|i: int|
                0 <= i < us.drop_last().len() && (#[trigger] us.drop_last()[i]).symbol_path == k {
                let i = choose|i: int|
                    0 <= i < us.drop_last().len() && (#[trigger] us.drop_last()[i]).symbol_path
                        == k;
                assert(us[i].symbol_path == k);
            }
            if exists|i: int| 0 <= i < us.len() && (#[trigger] us[i]).symbol_path == k {
                let i = choose|i: int| 0 <= i < us.len() && (#[trigger] us[i]).symbol_path == k;
                if i < us.len() - 1 {
                    assert(us.drop_last()[i].symbol_path == k);
                }
            }
        }
    }
}

/// The two usage maps an insertion run starts from do not matter at the
/// inserted keys, as long as neither already holds a bucket there.
proof fn lemma_insert_usages_same(
    m1: Map<Seq<char>, Seq<UsageV>>,
    m2: Map<Seq<char>, Seq<UsageV>>,
    us: Seq<UsageV>,
    k: Seq<char>,
)
    requires
        usage_keys_of(us).contains(k),
        !m1.contains_key(k),
        !m2.contains_key(k),
    ensures
        spec_insert_usages(m1, us)[k] == spec_insert_usages(m2, us)[k],
    decreases us,
{
    lemma_ukeys_of_index(us, k);
    lemma_insert_usages_contains(m1, us.drop_last());
    lemma_insert_usages_contains(m2, us.drop_last());
    let r1 = spec_insert_usages(m1, us.drop_last());
    let r2 = spec_insert_usages(m2, us.drop_last());
    let u = us.last();
    let b1 = if r1.contains_key(u.symbol_path) {
        r1[u.symbol_path]
    } else {
        Seq::<UsageV>::empty()
    };
    let b2 = if r2.contains_key(u.symbol_path) {
        r2[u.symbol_path]
    } else {
        Seq::<UsageV>::empty()
    };
    assert(spec_insert_usages(m1, us) == r1.insert(u.symbol_path, b1.push(u)));
    assert(spec_insert_usages(m2, us) == r2.insert(u.symbol_path, b2.push(u)));
    if u.symbol_path == k {
        if usage_keys_of(us.drop_last()).contains(k) {
            lemma_insert_usages_same(m1, m2, us.drop_last(), k);
            assert(r1.contains_key(k) && r2.contains_key(k));
            assert(b1 == b2);
        } else {
            assert(!r1.contains_key(k) && !r2.contains_key(k));
            assert(b1 == b2);
        }
        assert(spec_insert_usages(m1, us)[k] == b1.push(u));
        assert(spec_insert_usages(m2, us)[k] == b2.push(u));
    } else {
        assert(usage_keys_of(us.drop_last()).contains(k)) by {
            lemma_ukeys_of_index(us.drop_last(), k);
            let i = choose|i: int| 0 <= i < us.len() && (#[trigger] us[i]).symbol_path == k;
            assert(us.drop_last()[i].symbol_path == k);
        }
        lemma_insert_usages_same(m1, m2, us.drop_last(), k);
        assert(spec_insert_usages(m1, us)[k] == r1[k]);
        assert(spec_insert_usages(m2, us)[k] == r2[k]);
    }
}

proof fn lemma_children_decls_file(
    cs: Seq<ParseNode>,
    ancs: Seq<ParseNode>,
    ctx: crate::cpp::DeclContext,
    file: Seq<char>,
)
    ensures
        forall|i: int|
            0 <= i < spec_children_decls(cs, ancs, ctx, file).len() ==> (#[trigger] spec_children_decls(
                cs,
                ancs,
                ctx,
                file,
            )[i]).1.file == file && spec_children_decls(cs, ancs, ctx, file)[i].0
                == spec_children_decls(cs, ancs, ctx, file)[i].1.meta_path,
    decreases cs,
{
    if cs.len() > 0 {
        lemma_children_decls_file(cs.drop_last(), ancs, ctx, file);
        lemma_node_decls_file(cs.last(), ancs, ctx, file);
        let a = spec_children_decls(cs.drop_last(), ancs, ctx, file);
        let b = spec_node_decls(cs.last(), ancs, ctx, file);
        assert(spec_children_decls(cs, ancs, ctx, file) == a + b);
        assert forall|i: int|
            0 <= i < (a + b).len() implies (#[trigger] (a + b)[i]).1.file == file && (a + b)[i].0
            == (a + b)[i].1.meta_path by {
            if i < a.len() {
                assert((a + b)[i] == a[i]);
            } else {
                assert((a + b)[i] == b[i - a.len()]);
            }
        }
    }
}

/// Every declaration the walk of a file yields names that file, and is
/// keyed by its own symbol path.
proof fn lemma_node_decls_file(
    n: ParseNode,
    ancs: Seq<ParseNode>,
    ctx: crate::cpp::DeclContext,
    file: Seq<char>,
)
    ensures
        forall|i: int|
            0 <= i < spec_node_decls(n, ancs, ctx, file).len() ==> (#[trigger] spec_node_decls(
                n,
                ancs,
                ctx,
                file,
            )[i]).1.file == file && spec_node_decls(n, ancs, ctx, file)[i].0 == spec_node_decls(
                n,
                ancs,
                ctx,
                file,
            )[i].1.meta_path,
    decreases n,
{
    lemma_children_decls_file(
        n.children@,
        ancs.push(n),
        crate::cpp::spec_child_context(n.kind@, ctx),
        file,
    );
    let own_opt = crate::cpp::spec_own_decl(n, crate::cpp::spec_scope_chain(ancs), ctx, file);
    let own: Seq<(Seq<char>, DeclV)> = match own_opt {
        Some(p) => seq![p],
        None => Seq::empty(),
    };
    let rest = spec_children_decls(
        n.children@,
        ancs.push(n),
        crate::cpp::spec_child_context(n.kind@, ctx),
        file,
    );
    assert(spec_node_decls(n, ancs, ctx, file) == own + rest);
    assert forall|i: int|
        0 <= i < (own + rest).len() implies (#[trigger] (own + rest)[i]).1.file == file && (own
        + rest)[i].0 == (own + rest)[i].1.meta_path by {
        if i < own.len() {
            assert((own + rest)[i] == own[0]);
        } else {
            assert((own + rest)[i] == rest[i - own.len()]);
        }
    }
}

/// Every key a file's declaration keyset holds stands in the global map,
/// owned by a record that names that very file.
pub open spec fn files_consistent(v: AstIndexV) -> bool {
    forall|f: Seq<char>, k: Seq<char>|
        v.files.contains_key(f) && #[trigger] v.files[f].decl_keys.contains(k)
            ==> v.declarations.contains_key(k) && v.declarations[k].file == f
}

/// An empty index is consistent.
pub proof fn lemma_empty_consistent(v: AstIndexV)
    requires
        v.files == Map::<Seq<char>, FileV>::empty(),
    ensures
        files_consistent(v),
{
}

/// Removing a file keeps the index consistent: collateral deletion cannot
/// occur, since consistency itself forces the files' keysets apart.
pub proof fn lemma_remove_preserves_consistency(v: AstIndexV, path: Seq<char>)
    requires
        files_consistent(v),
    ensures
        files_consistent(spec_remove_file(v, path)),
{
    let v2 = spec_remove_file(v, path);
    if v.files.contains_key(path) {
        assert forall|f: Seq<char>, k: Seq<char>|
            v2.files.contains_key(f) && #[trigger] v2.files[f].decl_keys.contains(
                k,
            ) implies v2.declarations.contains_key(k) && v2.declarations[k].file == f by {
            assert(f != path);
            assert(v.files.contains_key(f) && v.files[f].decl_keys.contains(k));
            assert(v.declarations.contains_key(k) && v.declarations[k].file == f);
            assert(!v.files[path].decl_keys.contains(k)) by {
                if v.files[path].decl_keys.contains(k) {
                    assert(v.declarations[k].file == path);
                }
            }
        }
    }
}

/// Re-indexing a file keeps the index consistent, as long as the file's new
/// keys collide with no other file's keyset.
pub proof fn lemma_add_preserves_consistency(v: AstIndexV, path: Seq<char>, root: ParseNode)
    requires
        files_consistent(v),
        forall|f: Seq<char>, k: Seq<char>|
            v.files.contains_key(f) && f != path && #[trigger] v.files[f].decl_keys.contains(k)
                ==> !keys_of(spec_decls(root, path)).contains(k),
    ensures
        files_consistent(spec_add_file(v, path, root)),
{
    let ds = spec_decls(root, path);
    let v1 = spec_remove_file(v, path);
    let a = spec_add_file(v, path, root);
    lemma_remove_preserves_consistency(v, path);
    lemma_insert_decls_contains(v1.declarations, ds);
    lemma_node_decls_file(root, Seq::empty(), crate::cpp::DeclContext::Other, path);
    assert forall|f: Seq<char>, k: Seq<char>|
        a.files.contains_key(f) && #[trigger] a.files[f].decl_keys.contains(
            k,
        ) implies a.declarations.contains_key(k) && a.declarations[k].file == f by {
        if f == path {
            assert(keys_of(ds).contains(k)) by {
                assert(a.files[path].decl_keys == keys_of(ds).to_set());
            }
            lemma_insert_decls_lookup(v1.declarations, ds, k);
            let i = choose|i: int|
                0 <= i < ds.len() && (#[trigger] ds[i]).0 == k && spec_insert_decls(
                    v1.declarations,
                    ds,
                )[k] == ds[i].1;
            assert(ds[i].1.file == path);
        } else {
            assert(v1.files.contains_key(f) && v1.files[f].decl_keys.contains(k));
            assert(v1.declarations.contains_key(k) && v1.declarations[k].file == f);
            assert(v.files.contains_key(f) && v.files[f].decl_keys.contains(k)) by {
                if v.files.contains_key(path) {
                    assert(v1.files == v.files.remove(path));
                }
            }
            assert(!keys_of(ds).contains(k));
            assert(a.declarations[k] == v1.declarations[k]);
        }
    }
}

/// Removal round-trip: adding a file the index has never seen, whose symbol
/// paths collide with nothing already indexed, and then removing it, puts
/// every part of the state back exactly as it was.
pub proof fn lemma_add_then_remove(v: AstIndexV, path: Seq<char>, root: ParseNode)
    requires
        !v.files.contains_key(path),
        forall|k: Seq<char>|
            #[trigger] keys_of(spec_decls(root, path)).contains(k)
                ==> !v.declarations.contains_key(k),
        forall|k: Seq<char>|
            #[trigger] usage_keys_of(
                spec_link(spec_decls(root, path), spec_usages(root)),
            ).contains(k) ==> !v.usages.contains_key(k),
    ensures
        spec_remove_file(spec_add_file(v, path, root), path).declarations == v.declarations,
        spec_remove_file(spec_add_file(v, path, root), path).usages == v.usages,
        spec_remove_file(spec_add_file(v, path, root), path).files == v.files,
{
    let ds = spec_decls(root, path);
    let us = spec_link(ds, spec_usages(root));
    let a = spec_add_file(v, path, root);
    let b = spec_remove_file(a, path);
    assert(spec_remove_file(v, path) == v);
    lemma_insert_decls_contains(v.declarations, ds);
    lemma_insert_usages_contains(v.usages, us);
    assert(a.files.contains_key(path));
    assert(a.files[path].decl_keys == keys_of(ds).to_set());
    assert(b.declarations =~= v.declarations) by {
        assert forall|k: Seq<char>|
            #[trigger] b.declarations.contains_key(k) <==> v.declarations.contains_key(k) by {
            if keys_of(ds).contains(k) {
                assert(!b.declarations.contains_key(k));
                assert(!v.declarations.contains_key(k));
            }
        }
        assert forall|k: Seq<char>| #[trigger] b.declarations.contains_key(k) implies b.declarations[k]
            == v.declarations[k] by {
            assert(!keys_of(ds).contains(k));
        }
    }
    assert(b.usages =~= v.usages) by {
        assert forall|k: Seq<char>|
            #[trigger] b.usages.contains_key(k) <==> v.usages.contains_key(k) by {
            if usage_keys_of(us).contains(k) {
                assert(!b.usages.contains_key(k));
                assert(!v.usages.contains_key(k));
            }
        }
        assert forall|k: Seq<char>| #[trigger] b.usages.contains_key(k) implies b.usages[k] == v.usages[k] by {
            assert(!usage_keys_of(us).contains(k));
        }
    }
    assert(b.files =~= v.files);
}

/// Replacement idempotence: indexing the same parse tree for the same file
/// twice in a row leaves exactly the state of the first indexing, as long as
/// the file's usage paths collide with no other file's usage bucket.
pub proof fn lemma_add_twice(v: AstIndexV, path: Seq<char>, root: ParseNode)
    requires
        forall|k: Seq<char>|
            #[trigger] usage_keys_of(
                spec_link(spec_decls(root, path), spec_usages(root)),
            ).contains(k) ==> !spec_remove_file(v, path).usages.contains_key(k),
    ensures
        spec_add_file(spec_add_file(v, path, root), path, root).declarations == spec_add_file(
            v,
            path,
            root,
        ).declarations,
        spec_add_file(spec_add_file(v, path, root), path, root).usages == spec_add_file(
            v,
            path,
            root,
        ).usages,
        spec_add_file(spec_add_file(v, path, root), path, root).files == spec_add_file(
            v,
            path,
            root,
        ).files,
{
    let ds = spec_decls(root, path);
    let us = spec_link(ds, spec_usages(root));
    let v1 = spec_remove_file(v, path);
    let a = spec_add_file(v, path, root);
    let a1 = spec_remove_file(a, path);
    let b = spec_add_file(a, path, root);
    lemma_insert_decls_contains(v1.declarations, ds);
    lemma_insert_usages_contains(v1.usages, us);
    assert(a.files.contains_key(path));
    assert(a1.declarations == a.declarations.remove_keys(keys_of(ds).to_set()));
    lemma_insert_decls_contains(a1.declarations, ds);
    lemma_insert_usages_contains(a1.usages, us);
    assert(b.declarations =~= a.declarations) by {
        assert forall|k: Seq<char>|
            #[trigger] b.declarations.contains_key(k) <==> a.declarations.contains_key(k) by {
            if !keys_of(ds).contains(k) {
                assert(a1.declarations.contains_key(k) <==> a.declarations.contains_key(k));
            }
        }
        assert forall|k: Seq<char>| #[trigger] b.declarations.contains_key(k) implies b.declarations[k]
            == a.declarations[k] by {
            if keys_of(ds).contains(k) {
                lemma_insert_decls_same(a1.declarations, v1.declarations, ds, k);
            } else {
                assert(a1.declarations.contains_key(k) ==> a1.declarations[k]
                    == a.declarations[k]);
            }
        }
    }
    assert(b.usages =~= a.usages) by {
        assert forall|k: Seq<char>|
            #[trigger] b.usages.contains_key(k) <==> a.usages.contains_key(k) by {
            if !usage_keys_of(us).contains(k) {
                assert(a1.usages.contains_key(k) <==> a.usages.contains_key(k));
            }
        }
        assert forall|k: Seq<char>| #[trigger] b.usages.contains_key(k) implies b.usages[k] == a.usages[k] by {
            if usage_keys_of(us).contains(k) {
                assert(!a1.usages.contains_key(k));
                assert(!v1.usages.contains_key(k));
                lemma_insert_usages_same(a1.usages, v1.usages, us, k);
            } else {
                assert(a1.usages.contains_key(k) ==> a1.usages[k] == a.usages[k]);
            }
        }
    }
    assert(b.files =~= a.files);
}

} // verus!
