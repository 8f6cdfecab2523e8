//! The configured library source: a local folder or one of the remote
//! media servers, with the credential each remote kind keeps encrypted at
//! rest.

use vstd::prelude::*;

use crate::text::{chars_eq, chars_of};

verus! {

/// Where songs come from. Paths are kept as text.
pub enum LibrarySource {
    Folder { path: String },
    Jellyfin {
        base_url: String,
        user_id: String,
        username: String,
        /// Access token; encrypted in the config file, plaintext in memory.
        access_token: String,
        device_id: String,
        /// Libraries the scan is restricted to; empty means all of them.
        library_ids: Vec<String>,
    },
    Navidrome {
        base_url: String,
        username: String,
        /// Subsonic password; same at-rest envelope as Jellyfin's token.
        password: String,
    },
    Plex {
        base_url: String,
        server_name: String,
        machine_id: String,
        username: String,
        /// PMS access token; encrypted in the config file.
        access_token: String,
        client_id: String,
        section_ids: Vec<String>,
    },
}

impl LibrarySource {
    /// The credential this source keeps in the at-rest envelope, if any.
    pub open spec fn secret(&self) -> Option<Seq<char>> {
        match self {
            LibrarySource::Folder { .. } => None,
            LibrarySource::Jellyfin { access_token, .. } => Some(access_token@),
            LibrarySource::Navidrome { password, .. } => Some(password@),
            LibrarySource::Plex { access_token, .. } => Some(access_token@),
        }
    }

    /// `self` and `other` agree on every field but the credential.
    pub open spec fn same_but_secret(&self, other: &LibrarySource) -> bool {
        match (self, other) {
            (LibrarySource::Folder { path: a }, LibrarySource::Folder { path: b }) => a@ == b@,
            (
                LibrarySource::Jellyfin {
                    base_url: a1,
                    user_id: a2,
                    username: a3,
                    device_id: a4,
                    library_ids: a5,
                    ..
                },
                LibrarySource::Jellyfin {
                    base_url: b1,
                    user_id: b2,
                    username: b3,
                    device_id: b4,
                    library_ids: b5,
                    ..
                },
            ) => a1 == b1 && a2 == b2 && a3 == b3 && a4 == b4 && a5 == b5,
            (
                LibrarySource::Navidrome { base_url: a1, username: a2, .. },
                LibrarySource::Navidrome { base_url: b1, username: b2, .. },
            ) => a1 == b1 && a2 == b2,
            (
                LibrarySource::Plex {
                    base_url: a1,
                    server_name: a2,
                    machine_id: a3,
                    username: a4,
                    client_id: a5,
                    section_ids: a6,
                    ..
                },
                LibrarySource::Plex {
                    base_url: b1,
                    server_name: b2,
                    machine_id: b3,
                    username: b4,
                    client_id: b5,
                    section_ids: b6,
                    ..
                },
            ) => a1 == b1 && a2 == b2 && a3 == b3 && a4 == b4 && a5 == b5 && a6 == b6,
            _ => false,
        }
    }

    /// Applies `transform` to the credential (Jellyfin's and Plex's access
    /// token, Navidrome's password), leaving everything else as it is.
    pub fn map_secret<F: Fn(&str) -> String>(self, transform: F) -> (r: LibrarySource)
        requires
            forall|s: &str| #[trigger] transform.requires((s,)),
        ensures
            secret_mapped(self, r, transform),
    {
        match self {
            LibrarySource::Folder { path } => LibrarySource::Folder { path },
            LibrarySource::Jellyfin {
                base_url,
                user_id,
                username,
                access_token,
                device_id,
                library_ids,
            } => {
                let out = transform(access_token.as_str());
                LibrarySource::Jellyfin {
                    base_url,
                    user_id,
                    username,
                    access_token: out,
                    device_id,
                    library_ids,
                }
            },
            LibrarySource::Navidrome { base_url, username, password } => {
                let out = transform(password.as_str());
                LibrarySource::Navidrome { base_url, username, password: out }
            },
            LibrarySource::Plex {
                base_url,
                server_name,
                machine_id,
                username,
                access_token,
                client_id,
                section_ids,
            } => {
                let out = transform(access_token.as_str());
                LibrarySource::Plex {
                    base_url,
                    server_name,
                    machine_id,
                    username,
                    access_token: out,
                    client_id,
                    section_ids,
                }
            },
        }
    }
}

/// `after` is `before` with `transform` applied to its credential:
/// every other field as it was, and the credential, where there is one,
/// what `transform` gave for it.
pub open spec fn secret_mapped<F: Fn(&str) -> String>(
    before: LibrarySource,
    after: LibrarySource,
    transform: F,
) -> bool {
    &&& after.same_but_secret(&before)
    &&& before.secret() is None ==> after.secret() is None
    &&& before.secret() matches Some(s) ==> exists|arg: &str, out: String|
        arg@ == s && #[trigger] transform.ensures((arg,), out) && after.secret() == Some(out@)
}

/// `open` undoes `seal`: opening what sealing gave for a text gives that
/// text back.
pub open spec fn undoes<E: Fn(&str) -> String, D: Fn(&str) -> String>(seal: E, open: D) -> bool {
    forall|a: &str, sealed: String, b: &str, out: String|
        #![trigger seal.ensures((a,), sealed), open.ensures((b,), out)]
        seal.ensures((a,), sealed) && b@ == sealed@ && open.ensures((b,), out) ==> out@ == a@
}

/// A credential sealed for the config file and opened again on load is the
/// credential it was, and the source is otherwise unchanged, whenever the
/// opening undoes the sealing.
pub proof fn lemma_secret_round_trip<E: Fn(&str) -> String, D: Fn(&str) -> String>(
    source: LibrarySource,
    on_disk: LibrarySource,
    loaded: LibrarySource,
    seal: E,
    open: D,
)
    requires
        secret_mapped(source, on_disk, seal),
        secret_mapped(on_disk, loaded, open),
        undoes(seal, open),
    ensures
        loaded.same_but_secret(&source),
        loaded.secret() == source.secret(),
{
    if let Some(s) = source.secret() {
        let (a1, o1) = choose|arg: &str, out: String|
            arg@ == s && #[trigger] seal.ensures((arg,), out) && on_disk.secret() == Some(out@);
        let (a2, o2) = choose|arg: &str, out: String|
            arg@ == o1@ && #[trigger] open.ensures((arg,), out) && loaded.secret() == Some(out@);
        assert(o2@ == a1@);
    }
}

/// Whether a credential still sits on disk in plaintext: the source has
/// one, it is not empty, and `is_encrypted` does not recognise it as an
/// at-rest envelope.
pub fn has_plaintext_secret<F: Fn(&str) -> bool>(src: &LibrarySource, is_encrypted: F) -> (r:
    bool)
    requires
        forall|s: &str| #[trigger] is_encrypted.requires((s,)),
    ensures
        src.secret() is None ==> !r,
        match src {
            LibrarySource::Folder { .. } => true,
            LibrarySource::Jellyfin { access_token: s, .. }
            | LibrarySource::Plex { access_token: s, .. }
            | LibrarySource::Navidrome { password: s, .. } => {
                &&& s@.len() == 0 ==> !r
                &&& s@.len() > 0 ==> exists|arg: &str, b: bool|
                    arg@ == s@ && is_encrypted.ensures((arg,), b) && r == !b
            },
        },
{
    let secret: &String = match src {
        LibrarySource::Folder { .. } => return false,
        LibrarySource::Jellyfin { access_token, .. } => access_token,
        LibrarySource::Navidrome { password, .. } => password,
        LibrarySource::Plex { access_token, .. } => access_token,
    };
    let chars = chars_of(secret.as_str());
    if chars.len() == 0 {
        return false;
    }
    let enc = is_encrypted(secret.as_str());
    !enc
}

// ─── Settings ────────────────────────────────────────────────────────

/// A song's language chosen by the user for its next analysis.
pub struct LanguageOverride {
    pub file_hash: String,
    pub language: String,
}

/// The settings the library acts on. The floating-point ones (volumes,
/// gains, scales, the vocal threshold) and the display-only ones stay with
/// the caller's copy of the config file.
pub struct AppConfig {
    pub data_path: Option<String>,
    /// The folder of builds that knew no other source; read once, then
    /// turned into `library_source`.
    pub last_folder: Option<String>,
    pub library_source: Option<LibrarySource>,
    pub recordings_path: Option<String>,
    pub whisper_model: Option<String>,
    pub beam_size: Option<u32>,
    pub batch_size: Option<u32>,
    pub separator: Option<String>,
    pub asr_engine: Option<String>,
    pub align_backend: Option<String>,
    pub auto_analyze: Option<bool>,
    pub language_overrides: Option<Vec<LanguageOverride>>,
}

pub open spec fn text_or(o: Option<String>, default: Seq<char>) -> Seq<char> {
    match o {
        Some(s) => s@,
        None => default,
    }
}

pub open spec fn overrides_view(o: Option<Vec<LanguageOverride>>) -> Seq<(Seq<char>, Seq<char>)> {
    match o {
        Some(v) => v@.map_values(|e: LanguageOverride| (e.file_hash@, e.language@)),
        None => seq![],
    }
}

/// The language stored for `hash`: the first entry for it.
pub open spec fn lookup(entries: Seq<(Seq<char>, Seq<char>)>, hash: Seq<char>) -> Option<Seq<char>>
    decreases entries.len(),
{
    if entries.len() == 0 {
        None
    } else if entries[0].0 == hash {
        Some(entries[0].1)
    } else {
        lookup(entries.drop_first(), hash)
    }
}

proof fn lemma_lookup_first(entries: Seq<(Seq<char>, Seq<char>)>, hash: Seq<char>, i: int)
    requires
        0 <= i < entries.len(),
        entries[i].0 == hash,
        forall|j: int| 0 <= j < i ==> entries[j].0 != hash,
    ensures
        lookup(entries, hash) == Some(entries[i].1),
    decreases i,
{
    if i > 0 {
        lemma_lookup_first(entries.drop_first(), hash, i - 1);
    }
}

proof fn lemma_lookup_none(entries: Seq<(Seq<char>, Seq<char>)>, hash: Seq<char>)
    requires
        forall|j: int| 0 <= j < entries.len() ==> entries[j].0 != hash,
    ensures
        lookup(entries, hash) is None,
    decreases entries.len(),
{
    if entries.len() > 0 {
        lemma_lookup_none(entries.drop_first(), hash);
    }
}

/// Replacing the entry at `i`, the first one for its hash, with a new
/// language for that hash changes the lookup of that hash only.
proof fn lemma_lookup_update(
    entries: Seq<(Seq<char>, Seq<char>)>,
    i: int,
    lang: Seq<char>,
    other: Seq<char>,
)
    requires
        0 <= i < entries.len(),
        forall|j: int| 0 <= j < i ==> entries[j].0 != entries[i].0,
    ensures
        other != entries[i].0 ==> lookup(entries.update(i, (entries[i].0, lang)), other) == lookup(
            entries,
            other,
        ),
        lookup(entries.update(i, (entries[i].0, lang)), entries[i].0) == Some(lang),
    decreases i,
{
    let u = entries.update(i, (entries[i].0, lang));
    if i > 0 {
        let rest = entries.drop_first();
        assert(u[0] == entries[0]);
        assert(rest[i - 1] == entries[i]);
        assert forall|j: int| 0 <= j < i - 1 implies #[trigger] rest[j].0 != rest[i - 1].0 by {
            assert(rest[j] == entries[j + 1]);
        }
        assert(u.drop_first() =~= rest.update(i - 1, (entries[i].0, lang)));
        lemma_lookup_update(rest, i - 1, lang, other);
    } else {
        assert(u.drop_first() =~= entries.drop_first());
    }
}

/// Appending an entry for a hash that has none changes the lookup of that
/// hash only.
proof fn lemma_lookup_push(
    entries: Seq<(Seq<char>, Seq<char>)>,
    hash: Seq<char>,
    lang: Seq<char>,
    other: Seq<char>,
)
    requires
        forall|j: int| 0 <= j < entries.len() ==> entries[j].0 != hash,
    ensures
        lookup(entries.push((hash, lang)), hash) == Some(lang),
        other != hash ==> lookup(entries.push((hash, lang)), other) == lookup(entries, other),
    decreases entries.len(),
{
    let pushed = entries.push((hash, lang));
    if entries.len() > 0 {
        let rest = entries.drop_first();
        assert(pushed[0] == entries[0]);
        assert forall|j: int| 0 <= j < rest.len() implies rest[j].0 != hash by {
            assert(rest[j] == entries[j + 1]);
        }
        assert(pushed.drop_first() =~= rest.push((hash, lang)));
        lemma_lookup_push(rest, hash, lang, other);
    } else {
        assert(pushed.drop_first() =~= entries);
        assert(pushed[0] == (hash, lang));
        assert(lookup(pushed, other) == lookup(pushed.drop_first(), other) || other == hash);
    }
}

impl AppConfig {
    /// Whisper model; `large-v3` unless set.
    pub fn whisper_model(&self) -> (r: &str)
        ensures
            r@ == text_or(self.whisper_model, "large-v3"@),
    {
        match &self.whisper_model {
            Some(m) => m.as_str(),
            None => "large-v3",
        }
    }

    /// Beam size; 8 unless set.
    pub fn beam_size(&self) -> (r: u32)
        ensures
            r == match self.beam_size {
                Some(v) => v,
                None => 8,
            },
    {
        match self.beam_size {
            Some(v) => v,
            None => 8,
        }
    }

    /// Batch size; 8 unless set.
    pub fn batch_size(&self) -> (r: u32)
        ensures
            r == match self.batch_size {
                Some(v) => v,
                None => 8,
            },
    {
        match self.batch_size {
            Some(v) => v,
            None => 8,
        }
    }

    /// Stem separator; `karaoke` unless set.
    pub fn separator(&self) -> (r: &str)
        ensures
            r@ == text_or(self.separator, "karaoke"@),
    {
        match &self.separator {
            Some(m) => m.as_str(),
            None => "karaoke",
        }
    }

    /// Speech recognition engine; `whisper` unless set.
    pub fn asr_engine(&self) -> (r: &str)
        ensures
            r@ == text_or(self.asr_engine, "whisper"@),
    {
        match &self.asr_engine {
            Some(m) => m.as_str(),
            None => "whisper",
        }
    }

    /// Alignment backend; `whisperx` unless set.
    pub fn align_backend(&self) -> (r: &str)
        ensures
            r@ == text_or(self.align_backend, "whisperx"@),
    {
        match &self.align_backend {
            Some(m) => m.as_str(),
            None => "whisperx",
        }
    }

    /// Whether new songs are analyzed on their own; off unless set.
    pub fn auto_analyze(&self) -> (r: bool)
        ensures
            r == (self.auto_analyze == Some(true)),
    {
        match self.auto_analyze {
            Some(v) => v,
            None => false,
        }
    }

    /// The data folder, or `default` when none is set.
    pub fn effective_data_path(&self, default: &str) -> (r: String)
        ensures
            r@ == text_or(self.data_path, default@),
    {
        match &self.data_path {
            Some(p) => p.clone(),
            None => String::from_str(default),
        }
    }

    /// The language chosen for a song, if any.
    pub fn language_override(&self, file_hash: &str) -> (r: Option<&str>)
        ensures
            match r {
                Some(l) => lookup(overrides_view(self.language_overrides), file_hash@) == Some(l@),
                None => lookup(overrides_view(self.language_overrides), file_hash@) is None,
            },
    {
        let list = match &self.language_overrides {
            Some(v) => v,
            None => {
                proof {
                    lemma_lookup_none(seq![], file_hash@);
                }
                return None;
            },
        };
        let ghost entries = overrides_view(self.language_overrides);
        let h = chars_of(file_hash);
        let mut i: usize = 0;
        while i < list.len()
            invariant
                i <= list@.len(),
                h@ == file_hash@,
                entries == overrides_view(self.language_overrides),
                entries == list@.map_values(|e: LanguageOverride| (e.file_hash@, e.language@)),
                forall|j: int| 0 <= j < i ==> entries[j].0 != file_hash@,
            decreases list@.len() - i,
        {
            assert(entries[i as int] == (list@[i as int].file_hash@, list@[i as int].language@));
            if chars_eq(&chars_of(list[i].file_hash.as_str()), &h) {
                proof {
                    lemma_lookup_first(entries, file_hash@, i as int);
                }
                let l = list[i].language.as_str();
                assert(l@ == entries[i as int].1);
                return Some(l);
            }
            i = i + 1;
        }
        proof {
            lemma_lookup_none(entries, file_hash@);
        }
        None
    }

    /// Chooses the language of a song's next analysis; every other song's
    /// choice stays.
    pub fn set_language_override(&mut self, file_hash: String, language: String)
        ensures
            final(self).language_overrides is Some,
            lookup(overrides_view(final(self).language_overrides), file_hash@) == Some(language@),
            forall|other: Seq<char>|
                other != file_hash@ ==> lookup(overrides_view(final(self).language_overrides), other)
                    == lookup(overrides_view(old(self).language_overrides), other),
    {
        let ghost before = overrides_view(self.language_overrides);
        let mut list = match self.language_overrides.take() {
            Some(v) => v,
            None => Vec::new(),
        };
        assert(list@.map_values(|e: LanguageOverride| (e.file_hash@, e.language@)) =~= before);
        let h = chars_of(file_hash.as_str());
        let mut i: usize = 0;
        while i < list.len()
            invariant
                i <= list@.len(),
                h@ == file_hash@,
                before == list@.map_values(|e: LanguageOverride| (e.file_hash@, e.language@)),
                forall|j: int| 0 <= j < i ==> before[j].0 != file_hash@,
            ensures
                i <= list@.len(),
                forall|j: int| 0 <= j < i ==> before[j].0 != file_hash@,
                i < list@.len() ==> before[i as int].0 == file_hash@,
            decreases list@.len() - i,
        {
            assert(before[i as int] == (list@[i as int].file_hash@, list@[i as int].language@));
            if chars_eq(&chars_of(list[i].file_hash.as_str()), &h) {
                break;
            }
            i = i + 1;
        }
        if i < list.len() {
            proof {
                assert(before[i as int].0 == file_hash@);
                assert forall|other: Seq<char>| other != file_hash@ implies lookup(
                    before.update(i as int, (file_hash@, language@)),
                    other,
                ) == lookup(before, other) by {
                    lemma_lookup_update(before, i as int, language@, other);
                }
                lemma_lookup_update(before, i as int, language@, seq![]);
            }
            list.set(i, LanguageOverride { file_hash, language });
            assert(list@.map_values(|e: LanguageOverride| (e.file_hash@, e.language@)) =~= before.update(
                i as int,
                (before[i as int].0, language@),
            ));
        } else {
            proof {
                assert forall|other: Seq<char>| other != file_hash@ implies lookup(
                    before.push((file_hash@, language@)),
                    other,
                ) == lookup(before, other) by {
                    lemma_lookup_push(before, file_hash@, language@, other);
                }
                lemma_lookup_push(before, file_hash@, language@, file_hash@);
            }
            let ghost fh = file_hash@;
            let ghost lg = language@;
            list.push(LanguageOverride { file_hash, language });
            assert(list@.map_values(|e: LanguageOverride| (e.file_hash@, e.language@)) =~= before.push(
                (fh, lg),
            ));
        }
        self.language_overrides = Some(list);
    }

    /// Fills in what an older config file lacks: the default data folder,
    /// and a library source from the folder of builds that knew no other.
    pub fn with_defaults(self, default_data_path: &str) -> (r: AppConfig)
        ensures
            r.data_path is Some,
            text_or(r.data_path, seq![]) == text_or(self.data_path, default_data_path@),
            self.library_source is None && self.last_folder is Some ==> (r.library_source
                matches Some(LibrarySource::Folder { path }) && self.last_folder
                matches Some(f) && path@ == f@) && r.last_folder is None,
            !(self.library_source is None && self.last_folder is Some) ==> r.library_source
                == self.library_source && r.last_folder == self.last_folder,
            r.recordings_path == self.recordings_path,
            r.whisper_model == self.whisper_model,
            r.beam_size == self.beam_size,
            r.batch_size == self.batch_size,
            r.separator == self.separator,
            r.asr_engine == self.asr_engine,
            r.align_backend == self.align_backend,
            r.auto_analyze == self.auto_analyze,
            r.language_overrides == self.language_overrides,
    {
        let AppConfig {
            data_path,
            last_folder,
            library_source,
            recordings_path,
            whisper_model,
            beam_size,
            batch_size,
            separator,
            asr_engine,
            align_backend,
            auto_analyze,
            language_overrides,
        } = self;
        let data_path = match data_path {
            Some(p) => Some(p),
            None => Some(String::from_str(default_data_path)),
        };
        let (library_source, last_folder) = match (library_source, last_folder) {
            (None, Some(path)) => (Some(LibrarySource::Folder { path }), None),
            (source, folder) => (source, folder),
        };
        AppConfig {
            data_path,
            last_folder,
            library_source,
            recordings_path,
            whisper_model,
            beam_size,
            batch_size,
            separator,
            asr_engine,
            align_backend,
            auto_analyze,
            language_overrides,
        }
    }

    /// Whether a config just read must be written back: it lacked a data
    /// folder, it still named its source by the old folder field, or a
    /// credential sat in it unencrypted.
    pub fn loaded_needs_save(&self, plaintext_secret: bool) -> (r: bool)
        ensures
            r == (self.data_path is None || (self.library_source is None
                && self.last_folder is Some) || plaintext_secret),
    {
        self.data_path.is_none() || (self.library_source.is_none() && self.last_folder.is_some())
            || plaintext_secret
    }

    /// Recovers the source of builds that kept the library folder only in
    /// the library database: with no source configured, a folder that is
    /// recorded with songs and still exists becomes the source. True when
    /// the source was set.
    pub fn source_from_library_meta(&mut self, meta: Option<(String, usize)>, folder_is_dir: bool) -> (r:
        bool)
        ensures
            r == (old(self).library_source is None && (meta matches Some((f, n)) && f@.len() > 0
                && n > 0 && folder_is_dir)),
            r ==> (final(self).library_source matches Some(LibrarySource::Folder { path }) && (meta
                matches Some((f, _)) && path@ == f@)),
            !r ==> final(self).library_source == old(self).library_source,
            final(self).data_path == old(self).data_path,
            final(self).last_folder == old(self).last_folder,
    {
        if self.library_source.is_some() {
            return false;
        }
        let (folder, count) = match meta {
            Some(m) => m,
            None => return false,
        };
        if chars_of(folder.as_str()).len() == 0 {
            return false;
        }
        if count == 0 || !folder_is_dir {
            return false;
        }
        self.library_source = Some(LibrarySource::Folder { path: folder });
        true
    }
}

} // verus!
