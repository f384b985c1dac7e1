//! Application services: decentralised sites (dws), file distribution (dfs)
//! and messaging (cts).

use vstd::prelude::*;
use vstd::string::{StringExecFns, StringSliceAdditionalSpecFns};
use crate::blake::{blake3_digest, blake3_hash};
use crate::bytes::copy_range;
use crate::clock::unix_time_secs;
use crate::dht::ids_equal;
use crate::entropy::random_u64;
use crate::storage::{held_bytes, StorageBlock, StorageEngine};

verus! {

/// Service kinds and their wire codes.
#[derive(Debug, Clone, Copy, PartialEq, Eq, Structural)]
pub enum ServiceType {
    /// Decentralised web site (code 0x01).
    Dws,
    /// File transfer (code 0x02).
    Dfs,
    /// Messaging (code 0x03).
    Cts,
    /// Anything else (code 0xFF).
    Reserved,
}

/// The service of a wire code; unknown codes are `Reserved`.
pub open spec fn service_from_code(v: u8) -> ServiceType {
    if v == 1 {
        ServiceType::Dws
    } else if v == 2 {
        ServiceType::Dfs
    } else if v == 3 {
        ServiceType::Cts
    } else {
        ServiceType::Reserved
    }
}

/// The wire code of each service.
pub open spec fn service_code(t: ServiceType) -> u8 {
    match t {
        ServiceType::Dws => 0x01,
        ServiceType::Dfs => 0x02,
        ServiceType::Cts => 0x03,
        ServiceType::Reserved => 0xFF,
    }
}

impl ServiceType {
    /// The wire code of this service.
    pub fn code(self) -> (r: u8)
        ensures
            r == service_code(self),
    {
        match self {
            ServiceType::Dws => 0x01,
            ServiceType::Dfs => 0x02,
            ServiceType::Cts => 0x03,
            ServiceType::Reserved => 0xFF,
        }
    }
}

/// A service read from its wire code and written back gives the code when
/// it is one of the three known ones, and 0xFF otherwise.
pub proof fn lemma_service_code_roundtrip(v: u8, t: ServiceType)
    ensures
        service_from_code(service_code(t)) == t,
        service_code(service_from_code(v)) == (if 1 <= v <= 3 { v } else { 0xFFu8 }),
{
}

impl From<u8> for ServiceType {
    fn from(v: u8) -> (r: ServiceType) {
        match v {
            0x01 => ServiceType::Dws,
            0x02 => ServiceType::Dfs,
            0x03 => ServiceType::Cts,
            _ => ServiceType::Reserved,
        }
    }
}

impl vstd::std_specs::convert::FromSpecImpl<u8> for ServiceType {
    open spec fn obeys_from_spec() -> bool {
        true
    }

    open spec fn from_spec(v: u8) -> ServiceType {
        service_from_code(v)
    }
}

/// A decentralised web site.
#[derive(Debug, Clone)]
pub struct DwsSite {
    /// Hash of the domain (stands for the site's public key hash).
    pub site_id: [u8; 32],
    pub domain: String,
    pub title: String,
    /// HTML content.
    pub content: String,
    pub version: u64,
    pub signature: Vec<u8>,
    /// Seconds since the Unix epoch.
    pub published_at: u64,
}

impl DwsSite {
    /// A first version of the site at `domain`, identified by the BLAKE3
    /// digest of the domain's UTF-8 bytes, unsigned, published at `now`
    /// (seconds since the Unix epoch).
    pub fn new_at(domain: &str, title: &str, content: &str, now: u64) -> (r: Self)
        ensures
            r.site_id@ == blake3_digest(domain.spec_bytes()),
            r.domain@ == domain@,
            r.title@ == title@,
            r.content@ == content@,
            r.version == 1,
            r.signature@ == Seq::<u8>::empty(),
            r.published_at == now,
    {
        let site_id = blake3_hash(domain.as_bytes());
        DwsSite {
            site_id,
            domain: domain.to_owned(),
            title: title.to_owned(),
            content: content.to_owned(),
            version: 1,
            signature: Vec::new(),
            published_at: now,
        }
    }

    /// A first version of the site at `domain`, published now: see `new_at`.
    pub fn new(domain: &str, title: &str, content: &str) -> (r: Self)
        ensures
            r.site_id@ == blake3_digest(domain.spec_bytes()),
            r.domain@ == domain@,
            r.title@ == title@,
            r.content@ == content@,
            r.version == 1,
            r.signature@ == Seq::<u8>::empty(),
    {
        Self::new_at(domain, title, content, unix_time_secs())
    }

    /// Checks the site signature. There is no signature scheme yet, so every
    /// site is accepted, signed or not.
    pub fn verify(&self) -> (r: bool)
        ensures
            r,
    {
        true
    }
}

/// Digests of the consecutive `size`-byte chunks of `data` (the last one
/// may be shorter).
pub open spec fn chunk_digests(data: Seq<u8>, size: nat) -> Seq<Seq<u8>>
    decreases data.len(),
{
    if data.len() == 0 || size == 0 {
        Seq::empty()
    } else {
        let n = if size < data.len() { size } else { data.len() };
        seq![blake3_digest(data.subrange(0, n as int))] + chunk_digests(
            data.subrange(n as int, data.len() as int),
            size,
        )
    }
}

/// A distributed file.
#[derive(Debug, Clone)]
pub struct DfsFile {
    pub file_hash: [u8; 32],
    pub name: String,
    pub size: u64,
    /// Digests of the chunks, in order.
    pub chunks: Vec<[u8; 32]>,
    pub mime_type: String,
    /// Seconds since the Unix epoch.
    pub uploaded_at: u64,
}

/// The MIME type given to every file.
pub open spec fn octet_stream() -> Seq<char> {
    "application/octet-stream"@
}

impl DfsFile {
    /// The file `name` with content `data` cut into `chunk_size`-byte chunks,
    /// uploaded now: see `new_at`.
    pub fn new(name: &str, data: &[u8], chunk_size: usize) -> (r: Self)
        requires
            chunk_size > 0,
        ensures
            r.file_hash@ == blake3_digest(data@),
            r.name@ == name@,
            r.size == data@.len(),
            r.chunks@.map_values(|c: [u8; 32]| c@) == chunk_digests(data@, chunk_size as nat),
            r.mime_type@ == octet_stream(),
    {
        Self::new_at(name, data, chunk_size, unix_time_secs())
    }

    /// The file `name` with content `data` cut into `chunk_size`-byte chunks:
    /// the digest of the whole and of each chunk, uploaded at `now` (seconds
    /// since the Unix epoch).
    pub fn new_at(name: &str, data: &[u8], chunk_size: usize, now: u64) -> (r: Self)
        requires
            chunk_size > 0,
        ensures
            r.file_hash@ == blake3_digest(data@),
            r.name@ == name@,
            r.size == data@.len(),
            r.chunks@.map_values(|c: [u8; 32]| c@) == chunk_digests(data@, chunk_size as nat),
            r.mime_type@ == octet_stream(),
            r.uploaded_at == now,
    {
        let mut chunks: Vec<[u8; 32]> = Vec::new();
        let mut off: usize = 0;
        proof {
            assert(data@.subrange(0, data@.len() as int) =~= data@);
        }
        while off < data.len()
            invariant
                0 <= off <= data@.len(),
                chunk_size > 0,
                chunks@.map_values(|c: [u8; 32]| c@) + chunk_digests(
                    data@.subrange(off as int, data@.len() as int),
                    chunk_size as nat,
                ) == chunk_digests(data@, chunk_size as nat),
            decreases data@.len() - off,
        {
            let end = if data.len() - off > chunk_size {
                off + chunk_size
            } else {
                data.len()
            };
            let piece = copy_range(data, off, end);
            let digest = blake3_hash(piece.as_slice());
            let ghost before = chunks@.map_values(|c: [u8; 32]| c@);
            let ghost rest = data@.subrange(off as int, data@.len() as int);
            chunks.push(digest);
            proof {
                assert(rest.subrange(0, (end - off) as int) =~= piece@);
                assert(rest.subrange((end - off) as int, rest.len() as int) =~= data@.subrange(
                    end as int,
                    data@.len() as int,
                ));
                assert(chunks@.map_values(|c: [u8; 32]| c@) =~= before.push(digest@));
                assert(before.push(digest@) + chunk_digests(
                    data@.subrange(end as int, data@.len() as int),
                    chunk_size as nat,
                ) =~= before + chunk_digests(rest, chunk_size as nat));
            }
            off = end;
        }
        proof {
            assert(data@.subrange(off as int, data@.len() as int) =~= Seq::<u8>::empty());
            assert(chunks@.map_values(|c: [u8; 32]| c@) + Seq::<Seq<u8>>::empty() =~= chunks@.map_values(
                |c: [u8; 32]| c@,
            ));
        }
        DfsFile {
            file_hash: blake3_hash(data),
            name: name.to_owned(),
            size: data.len() as u64,
            chunks,
            mime_type: "application/octet-stream".to_owned(),
            uploaded_at: now,
        }
    }
}

/// A chat message.
#[derive(Debug, Clone)]
pub struct CtsMessage {
    /// Sender and receiver node ids.
    pub from: [u8; 32],
    pub to: [u8; 32],
    pub content: String,
    /// Seconds since the Unix epoch.
    pub timestamp: u64,
    pub nonce: u64,
}

impl CtsMessage {
    /// A message sent now with a random nonce: see `new_at`.
    pub fn new(from: [u8; 32], to: [u8; 32], content: &str) -> (r: Self)
        ensures
            r.from == from,
            r.to == to,
            r.content@ == content@,
    {
        let timestamp = unix_time_secs();
        let nonce = random_u64();
        Self::new_at(from, to, content, timestamp, nonce)
    }

    /// A message sent at `now` (seconds since the Unix epoch) with the given
    /// nonce.
    pub fn new_at(from: [u8; 32], to: [u8; 32], content: &str, now: u64, nonce: u64) -> (r: Self)
        ensures
            r.from == from,
            r.to == to,
            r.content@ == content@,
            r.timestamp == now,
            r.nonce == nonce,
    {
        CtsMessage { from, to, content: content.to_owned(), timestamp: now, nonce }
    }
}

} // verus!

verus! {

/// `sites` after publishing `site`: it replaces the site with the same
/// domain, or is added at the end.
pub open spec fn upsert_site(sites: Seq<DwsSite>, site: DwsSite) -> Seq<DwsSite> {
    if exists|i: int| 0 <= i < sites.len() && (#[trigger] sites[i]).domain@ == site.domain@ {
        let i = choose|i: int| 0 <= i < sites.len() && (#[trigger] sites[i]).domain@ == site.domain@;
        sites.update(i, site)
    } else {
        sites.push(site)
    }
}

/// `files` after uploading `file`: it replaces the file with the same hash,
/// or is added at the end.
pub open spec fn upsert_file(files: Seq<DfsFile>, file: DfsFile) -> Seq<DfsFile> {
    if exists|i: int| 0 <= i < files.len() && (#[trigger] files[i]).file_hash == file.file_hash {
        let i = choose|i: int| 0 <= i < files.len() && (#[trigger] files[i]).file_hash == file.file_hash;
        files.update(i, file)
    } else {
        files.push(file)
    }
}

/// No two sites of `sites` share a domain.
pub open spec fn distinct_domains(sites: Seq<DwsSite>) -> bool {
    forall|i: int, j: int|
        0 <= i < j < sites.len() ==> (#[trigger] sites[i]).domain@ != (#[trigger] sites[j]).domain@
}

/// No two files of `files` share a hash.
pub open spec fn distinct_hashes(files: Seq<DfsFile>) -> bool {
    forall|i: int, j: int|
        0 <= i < j < files.len() ==> (#[trigger] files[i]).file_hash != (#[trigger] files[j]).file_hash
}

/// Publishing a site keeps one site per domain.
pub proof fn lemma_upsert_site_distinct(sites: Seq<DwsSite>, site: DwsSite)
    requires
        distinct_domains(sites),
    ensures
        distinct_domains(upsert_site(sites, site)),
{
    if exists|i: int| 0 <= i < sites.len() && (#[trigger] sites[i]).domain@ == site.domain@ {
        let k = choose|i: int| 0 <= i < sites.len() && (#[trigger] sites[i]).domain@ == site.domain@;
        let n = sites.update(k, site);
        assert forall|a: int, b: int| 0 <= a < b < n.len() implies (#[trigger] n[a]).domain@
            != (#[trigger] n[b]).domain@ by {
            assert(sites[a].domain@ != sites[b].domain@);
            if a == k {
                assert(n[b] == sites[b]);
            } else if b == k {
                assert(n[a] == sites[a]);
            }
        }
    } else {
        let n = sites.push(site);
        assert forall|a: int, b: int| 0 <= a < b < n.len() implies (#[trigger] n[a]).domain@
            != (#[trigger] n[b]).domain@ by {
            if b == sites.len() {
                assert(n[a] == sites[a]);
                assert(sites[a].domain@ != site.domain@);
            } else {
                assert(sites[a].domain@ != sites[b].domain@);
            }
        }
    }
}

/// Uploading a file keeps one file per hash.
pub proof fn lemma_upsert_file_distinct(files: Seq<DfsFile>, file: DfsFile)
    requires
        distinct_hashes(files),
    ensures
        distinct_hashes(upsert_file(files, file)),
{
    if exists|i: int| 0 <= i < files.len() && (#[trigger] files[i]).file_hash == file.file_hash {
        let k = choose|i: int| 0 <= i < files.len() && (#[trigger] files[i]).file_hash == file.file_hash;
        let n = files.update(k, file);
        assert forall|a: int, b: int| 0 <= a < b < n.len() implies (#[trigger] n[a]).file_hash
            != (#[trigger] n[b]).file_hash by {
            assert(files[a].file_hash != files[b].file_hash);
            if a == k {
                assert(n[b] == files[b]);
            } else if b == k {
                assert(n[a] == files[a]);
            }
        }
    } else {
        let n = files.push(file);
        assert forall|a: int, b: int| 0 <= a < b < n.len() implies (#[trigger] n[a]).file_hash
            != (#[trigger] n[b]).file_hash by {
            if b == files.len() {
                assert(n[a] == files[a]);
                assert(files[a].file_hash != file.file_hash);
            } else {
                assert(files[a].file_hash != files[b].file_hash);
            }
        }
    }
}

/// What storing the encoded site `data` did to the store: with room, a new
/// block holding `data` under its digest was stored and `Ok` returned;
/// without, nothing changed and the store's error was returned.
pub open spec fn stored_encoded(old_store: StorageEngine, new_store: StorageEngine, data: Seq<u8>, r: Result<(), String>) -> bool {
    &&& new_store.capacity() == old_store.capacity()
    &&& new_store.deposit_map() == old_store.deposit_map()
    &&& if old_store.used() + data.len() > old_store.capacity() {
        &&& r matches Err(e) && e@ == crate::storage::no_space_text()
        &&& new_store.blocks() == old_store.blocks()
        &&& new_store.used() == old_store.used()
    } else {
        &&& r is Ok
        &&& exists|b: StorageBlock|
            #![trigger old_store.blocks().insert(b.hash, b)]
            b.hash@ == blake3_digest(data) && b.data@ == data && b.stored_by@.len() == 0
                && b.last_accessed == 0 && b.access_count == 0
                && new_store.blocks() == old_store.blocks().insert(b.hash, b)
                && new_store.used() == old_store.used() - held_bytes(old_store.blocks(), b.hash)
                + data.len()
    }
}

/// The application services of a node.
pub struct AppManager {
    sites: Vec<DwsSite>,
    files: Vec<DfsFile>,
    messages: Vec<CtsMessage>,
    storage: StorageEngine,
}

impl AppManager {
    /// Published sites, one per domain.
    pub closed spec fn site_list(&self) -> Seq<DwsSite> {
        self.sites@
    }

    /// Uploaded files, one per hash.
    pub closed spec fn file_list(&self) -> Seq<DfsFile> {
        self.files@
    }

    /// Messages in the order sent.
    pub closed spec fn message_list(&self) -> Seq<CtsMessage> {
        self.messages@
    }

    /// The block store.
    pub closed spec fn store(&self) -> StorageEngine {
        self.storage
    }

    /// No two sites share a domain, no two files share a hash, and the
    /// store is consistent.
    pub open spec fn wf(&self) -> bool {
        &&& distinct_domains(self.site_list())
        &&& distinct_hashes(self.file_list())
        &&& self.store().wf()
    }

    /// Services with no content yet, over `storage`.
    pub fn new(storage: StorageEngine) -> (r: Self)
        requires
            storage.wf(),
        ensures
            r.wf(),
            r.site_list() == Seq::<DwsSite>::empty(),
            r.file_list() == Seq::<DfsFile>::empty(),
            r.message_list() == Seq::<CtsMessage>::empty(),
            r.store() == storage,
    {
        AppManager { sites: Vec::new(), files: Vec::new(), messages: Vec::new(), storage }
    }

    /// The block store.
    pub fn storage(&self) -> (r: &StorageEngine)
        ensures
            *r == self.store(),
    {
        &self.storage
    }

    /// Publishes `site`, whose serialized form is `encoded`: the site is
    /// filed under its domain (replacing an earlier version), then `encoded`
    /// is stored as a block with a deposit of 100. Fails with the store's
    /// error when the block does not fit (the site stays filed). A site whose
    /// signature does not check would be refused with "站点签名无效", but
    /// with no signature scheme yet every site is accepted (`DwsSite::verify`).
    pub fn publish_site(&mut self, site: DwsSite, encoded: Vec<u8>) -> (r: Result<(), String>)
        requires
            old(self).wf(),
        ensures
            final(self).wf(),
            final(self).site_list() == upsert_site(old(self).site_list(), site),
            final(self).file_list() == old(self).file_list(),
            final(self).message_list() == old(self).message_list(),
            stored_encoded(old(self).store(), final(self).store(), encoded@, r),
    {
        if !site.verify() {
            return Err(String::from_str("站点签名无效"));
        }
        let ghost old_sites = self.sites@;
        let mut i: usize = 0;
        let mut found = false;
        while i < self.sites.len() && !found
            invariant
                0 <= i <= self.sites@.len(),
                self.sites@ == old_sites,
                old_sites == old(self).sites@,
                *self == *old(self),
                found ==> i < self.sites@.len() && self.sites@[i as int].domain@ == site.domain@,
                !found ==> forall|q: int| 0 <= q < i ==> (#[trigger] self.sites@[q]).domain@ != site.domain@,
            decreases self.sites@.len() - i + (if found { 0int } else { 1int }),
        {
            if self.sites[i].domain == site.domain {
                found = true;
            } else {
                i = i + 1;
            }
        }
        if found {
            self.sites.set(i, site);
            proof {
                let q = choose|q: int| 0 <= q < old_sites.len() && (#[trigger] old_sites[q]).domain@ == site.domain@;
                if q != i {
                    if q < i {
                        assert(old(self).site_list()[q].domain@ != old(self).site_list()[i as int].domain@);
                    } else {
                        assert(old(self).site_list()[i as int].domain@ != old(self).site_list()[q].domain@);
                    }
                }
                assert(self.sites@ =~= upsert_site(old_sites, site));
            }
        } else {
            self.sites.push(site);
            assert(self.sites@ =~= upsert_site(old_sites, site));
        }
        proof {
            lemma_upsert_site_distinct(old_sites, site);
        }
        let block = StorageBlock::new(encoded);
        let ghost b = block;
        let r = self.storage.store_block(block, 100);
        proof {
            if r is Ok {
                assert(old(self).store().blocks().insert(b.hash, b) == self.storage.blocks());
            }
        }
        r
    }

    /// The site published under `domain`, if any.
    pub fn get_site(&self, domain: &str) -> (r: Option<&DwsSite>)
        ensures
            match r {
                Some(s) => exists|i: int|
                    0 <= i < self.site_list().len() && *s == #[trigger] self.site_list()[i]
                        && s.domain@ == domain@,
                None => forall|i: int|
                    0 <= i < self.site_list().len() ==> (#[trigger] self.site_list()[i]).domain@
                        != domain@,
            },
    {
        let key = domain.to_owned();
        let mut i: usize = 0;
        while i < self.sites.len()
            invariant
                0 <= i <= self.sites@.len(),
                key@ == domain@,
                forall|q: int| 0 <= q < i ==> (#[trigger] self.sites@[q]).domain@ != domain@,
            decreases self.sites@.len() - i,
        {
            if self.sites[i].domain == key {
                assert(self.site_list()[i as int].domain@ == domain@);
                return Some(&self.sites[i]);
            }
            i = i + 1;
        }
        None
    }

    /// Files `file` under its hash (replacing an earlier file with it).
    pub fn upload_file(&mut self, file: DfsFile) -> (r: Result<(), String>)
        requires
            old(self).wf(),
        ensures
            final(self).wf(),
            r is Ok,
            final(self).file_list() == upsert_file(old(self).file_list(), file),
            final(self).site_list() == old(self).site_list(),
            final(self).message_list() == old(self).message_list(),
            final(self).store() == old(self).store(),
    {
        let ghost old_files = self.files@;
        let mut i: usize = 0;
        let mut found = false;
        while i < self.files.len() && !found
            invariant
                0 <= i <= self.files@.len(),
                self.files@ == old_files,
                old_files == old(self).files@,
                *self == *old(self),
                found ==> i < self.files@.len() && self.files@[i as int].file_hash == file.file_hash,
                !found ==> forall|q: int| 0 <= q < i ==> (#[trigger] self.files@[q]).file_hash != file.file_hash,
            decreases self.files@.len() - i + (if found { 0int } else { 1int }),
        {
            if ids_equal(&self.files[i].file_hash, &file.file_hash) {
                found = true;
            } else {
                i = i + 1;
            }
        }
        if found {
            self.files.set(i, file);
            proof {
                let q = choose|q: int| 0 <= q < old_files.len() && (#[trigger] old_files[q]).file_hash == file.file_hash;
                if q != i {
                    if q < i {
                        assert(old(self).file_list()[q].file_hash != old(self).file_list()[i as int].file_hash);
                    } else {
                        assert(old(self).file_list()[i as int].file_hash != old(self).file_list()[q].file_hash);
                    }
                }
                assert(self.files@ =~= upsert_file(old_files, file));
            }
        } else {
            self.files.push(file);
            assert(self.files@ =~= upsert_file(old_files, file));
        }
        proof {
            lemma_upsert_file_distinct(old_files, file);
        }
        Ok(())
    }

    /// The file with hash `file_hash`, if any.
    pub fn get_file(&self, file_hash: &[u8; 32]) -> (r: Option<&DfsFile>)
        ensures
            match r {
                Some(f) => exists|i: int|
                    0 <= i < self.file_list().len() && *f == #[trigger] self.file_list()[i]
                        && f.file_hash == *file_hash,
                None => forall|i: int|
                    0 <= i < self.file_list().len() ==> (#[trigger] self.file_list()[i]).file_hash
                        != *file_hash,
            },
    {
        let mut i: usize = 0;
        while i < self.files.len()
            invariant
                0 <= i <= self.files@.len(),
                forall|q: int| 0 <= q < i ==> (#[trigger] self.files@[q]).file_hash != *file_hash,
            decreases self.files@.len() - i,
        {
            if ids_equal(&self.files[i].file_hash, file_hash) {
                assert(self.file_list()[i as int].file_hash == *file_hash);
                return Some(&self.files[i]);
            }
            i = i + 1;
        }
        None
    }

    /// Appends `msg` to the message history.
    pub fn send_message(&mut self, msg: CtsMessage) -> (r: Result<(), String>)
        requires
            old(self).wf(),
        ensures
            final(self).wf(),
            r is Ok,
            final(self).message_list() == old(self).message_list().push(msg),
            final(self).site_list() == old(self).site_list(),
            final(self).file_list() == old(self).file_list(),
            final(self).store() == old(self).store(),
    {
        self.messages.push(msg);
        assert(self.site_list() == old(self).site_list());
        assert(self.file_list() == old(self).file_list());
        Ok(())
    }

    /// The last `limit` messages (all when there are fewer), oldest first.
    pub fn get_recent_messages(&self, limit: usize) -> (r: &[CtsMessage])
        ensures
            r@ == self.message_list().subrange(
                if self.message_list().len() > limit {
                    self.message_list().len() - limit
                } else {
                    0
                },
                self.message_list().len() as int,
            ),
    {
        let len = self.messages.len();
        let start = if len > limit {
            len - limit
        } else {
            0
        };
        vstd::slice::slice_subrange(self.messages.as_slice(), start, len)
    }
}

} // verus!
