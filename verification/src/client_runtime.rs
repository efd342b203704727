//! Bookkeeping of the mods a server asks the client to run: where their
//! files go, which ones are already present, and the download of the
//! missing ones in chunks.

use vstd::prelude::*;

verus! {

/// How far the client has come in joining a server.
#[derive(Debug, Clone, Copy, PartialEq, Eq, Structural)]
pub enum ClientState {
    Start,
    Registered,
    DownloadedMods,
}

/// The server's answer to the client's registration.
pub enum RegisterReply {
    /// Registered, with the server's mod profile and its version.
    Accepted { mod_profile: String, mod_profile_version: String },
    /// The server refused the client.
    Refused,
    /// The server answered with another message.
    Invalid,
}

/// How far the client has come, and the mod profile of the server.
pub struct Session {
    state: ClientState,
    mod_profile: String,
    mod_profile_version: String,
}

pub struct SessionView {
    pub state: ClientState,
    pub mod_profile: Seq<char>,
    pub mod_profile_version: Seq<char>,
}

impl View for Session {
    type V = SessionView;

    closed spec fn view(&self) -> SessionView {
        SessionView {
            state: self.state,
            mod_profile: self.mod_profile@,
            mod_profile_version: self.mod_profile_version@,
        }
    }
}

impl Session {
    /// A client that has not registered yet.
    pub fn new() -> (r: Self)
        ensures
            r@.state == ClientState::Start,
            r@.mod_profile == Seq::<char>::empty(),
            r@.mod_profile_version == Seq::<char>::empty(),
    {
        Session { state: ClientState::Start, mod_profile: String::new(), mod_profile_version: String::new() }
    }

    pub fn state(&self) -> (r: ClientState)
        ensures
            r == self@.state,
    {
        self.state
    }

    pub fn mod_profile(&self) -> (r: &str)
        ensures
            r@ == self@.mod_profile,
    {
        self.mod_profile.as_str()
    }

    pub fn mod_profile_version(&self) -> (r: &str)
        ensures
            r@ == self@.mod_profile_version,
    {
        self.mod_profile_version.as_str()
    }

    /// Takes in the answer to the registration: an acceptance registers the
    /// client under the server's mod profile; on a refusal or another
    /// message the client must stop, which the result `false` says, and
    /// nothing changes.
    pub fn on_register_reply(&mut self, reply: RegisterReply) -> (r: bool)
        ensures
            r == (reply is Accepted),
            match reply {
                RegisterReply::Accepted { mod_profile, mod_profile_version } => final(self)@ == (SessionView {
                    state: ClientState::Registered,
                    mod_profile: mod_profile@,
                    mod_profile_version: mod_profile_version@,
                }),
                _ => final(self)@ == old(self)@,
            },
    {
        match reply {
            RegisterReply::Accepted { mod_profile, mod_profile_version } => {
                self.state = ClientState::Registered;
                self.mod_profile = mod_profile;
                self.mod_profile_version = mod_profile_version;
                true
            },
            _ => false,
        }
    }

    /// Takes in a look at the download: once all bytes are in, the mods are
    /// downloaded.
    pub fn on_downloads_polled(&mut self, all_received: bool)
        ensures
            final(self)@ == (SessionView {
                state: if all_received { ClientState::DownloadedMods } else { old(self)@.state },
                ..old(self)@
            }),
    {
        if all_received {
            self.state = ClientState::DownloadedMods;
        }
    }
}

/// The file name extension of a mod's client library.
pub const MOD_FILE_EXTENSION: &'static str = ".so";

/// `runtime/{path}/{name}_client.so`, the client library of a mod.
pub open spec fn client_lib_spec(path: Seq<char>, name: Seq<char>) -> Seq<char> {
    "runtime/"@ + path + "/"@ + name + "_client"@ + ".so"@
}

/// `runtime/{path}.hash`, where the hash of a downloaded mod is kept.
pub open spec fn mod_hash_spec(path: Seq<char>) -> Seq<char> {
    "runtime/"@ + path + ".hash"@
}

/// `runtime/{path}`, the directory a mod is unpacked into.
pub open spec fn mod_dir_spec(path: Seq<char>) -> Seq<char> {
    "runtime/"@ + path
}

/// The path of the client library of the mod `name` kept under `path`.
pub fn client_lib(path: &str, name: &str) -> (r: String)
    ensures
        r@ == client_lib_spec(path@, name@),
{
    let mut s = String::new();
    s.append("runtime/");
    s.append(path);
    s.append("/");
    s.append(name);
    s.append("_client");
    s.append(MOD_FILE_EXTENSION);
    proof {
        assert(s@ =~= client_lib_spec(path@, name@));
    }
    s
}

/// The path of the file that holds the hash of the mod kept under `path`.
pub fn mod_hash(path: &str) -> (r: String)
    ensures
        r@ == mod_hash_spec(path@),
{
    let mut s = String::new();
    s.append("runtime/");
    s.append(path);
    s.append(".hash");
    proof {
        assert(s@ =~= mod_hash_spec(path@));
    }
    s
}

/// The directory a mod kept under `path` is unpacked into.
pub fn mod_dir(path: &str) -> (r: String)
    ensures
        r@ == mod_dir_spec(path@),
{
    let mut s = String::new();
    s.append("runtime/");
    s.append(path);
    proof {
        assert(s@ =~= mod_dir_spec(path@));
    }
    s
}

/// Whether a character is white space (the Unicode property White_Space).
pub open spec fn is_white_space(c: char) -> bool {
    let u = c as u32;
    ||| 0x09 <= u <= 0x0d
    ||| u == 0x20
    ||| u == 0x85
    ||| u == 0xa0
    ||| u == 0x1680
    ||| 0x2000 <= u <= 0x200a
    ||| u == 0x2028
    ||| u == 0x2029
    ||| u == 0x202f
    ||| u == 0x205f
    ||| u == 0x3000
}

fn white_space(c: char) -> (r: bool)
    ensures
        r == is_white_space(c),
{
    let u = c as u32;
    (0x09 <= u && u <= 0x0d) || u == 0x20 || u == 0x85 || u == 0xa0 || u == 0x1680
        || (0x2000 <= u && u <= 0x200a) || u == 0x2028 || u == 0x2029 || u == 0x202f
        || u == 0x205f || u == 0x3000
}

/// The number of white space characters at the start of `s`.
pub open spec fn leading_white(s: Seq<char>) -> nat
    decreases s.len(),
{
    if s.len() > 0 && is_white_space(s[0]) {
        1 + leading_white(s.drop_first())
    } else {
        0
    }
}

/// The number of white space characters at the end of `s`.
pub open spec fn trailing_white(s: Seq<char>) -> nat
    decreases s.len(),
{
    if s.len() > 0 && is_white_space(s.last()) {
        1 + trailing_white(s.drop_last())
    } else {
        0
    }
}

/// `s` without white space at its start and its end.
pub open spec fn trimmed(s: Seq<char>) -> Seq<char> {
    let a = leading_white(s) as int;
    if a == s.len() {
        Seq::empty()
    } else {
        s.subrange(a, s.len() - trailing_white(s))
    }
}

proof fn lemma_leading_white(s: Seq<char>, i: int)
    requires
        0 <= i <= s.len(),
        forall|k: int| 0 <= k < i ==> is_white_space(#[trigger] s[k]),
        i < s.len() ==> !is_white_space(s[i]),
    ensures
        leading_white(s) == i,
    decreases s.len(),
{
    if i > 0 {
        lemma_leading_white(s.drop_first(), i - 1);
    }
}

proof fn lemma_trailing_white(s: Seq<char>, j: int)
    requires
        0 <= j <= s.len(),
        forall|k: int| j <= k < s.len() ==> is_white_space(#[trigger] s[k]),
        j > 0 ==> !is_white_space(s[j - 1]),
    ensures
        trailing_white(s) == s.len() - j,
    decreases s.len(),
{
    if j < s.len() {
        lemma_trailing_white(s.drop_last(), j);
    }
}

proof fn lemma_leading_white_props(s: Seq<char>)
    ensures
        leading_white(s) <= s.len(),
        forall|k: int| 0 <= k < leading_white(s) ==> is_white_space(#[trigger] s[k]),
        leading_white(s) < s.len() ==> !is_white_space(s[leading_white(s) as int]),
    decreases s.len(),
{
    if s.len() > 0 && is_white_space(s[0]) {
        let d = s.drop_first();
        lemma_leading_white_props(d);
        assert forall|k: int| 0 <= k < leading_white(s) implies is_white_space(#[trigger] s[k]) by {
            if k > 0 {
                assert(s[k] == d[k - 1]);
            }
        }
        if leading_white(s) < s.len() {
            assert(s[leading_white(s) as int] == d[leading_white(d) as int]);
        }
    }
}

proof fn lemma_trailing_white_props(s: Seq<char>)
    ensures
        trailing_white(s) <= s.len(),
        forall|k: int| s.len() - trailing_white(s) <= k < s.len() ==> is_white_space(#[trigger] s[k]),
        trailing_white(s) < s.len() ==> !is_white_space(s[s.len() - trailing_white(s) - 1]),
    decreases s.len(),
{
    if s.len() > 0 && is_white_space(s.last()) {
        let d = s.drop_last();
        lemma_trailing_white_props(d);
        assert forall|k: int| s.len() - trailing_white(s) <= k < s.len() implies is_white_space(#[trigger] s[k]) by {
            if k < s.len() - 1 {
                assert(s[k] == d[k]);
            }
        }
        if trailing_white(s) < s.len() {
            assert(s[s.len() - trailing_white(s) - 1] == d[d.len() - trailing_white(d) - 1]);
        }
    }
}

/// Trimming removes white space from the ends and nothing else: what is left
/// neither starts nor ends with white space, it is the part of `s` after the
/// leading white space, every character of `s` outside it is white space,
/// and trimming it again changes nothing.
pub proof fn law_trim_removes_only_outer_white_space(s: Seq<char>)
    ensures
        ({
            let t = trimmed(s);
            let a = leading_white(s) as int;
            &&& t.len() > 0 ==> !is_white_space(t[0]) && !is_white_space(t.last())
            &&& a + t.len() <= s.len()
            &&& t == s.subrange(a, a + t.len())
            &&& forall|k: int| 0 <= k < s.len() && !(a <= k < a + t.len()) ==> is_white_space(#[trigger] s[k])
            &&& trimmed(t) == t
        }),
{
    lemma_leading_white_props(s);
    lemma_trailing_white_props(s);
    let a = leading_white(s) as int;
    let b = s.len() - trailing_white(s);
    let t = trimmed(s);
    if a == s.len() {
        assert(t =~= Seq::<char>::empty());
        assert(leading_white(t) == 0);
    } else {
        assert(!is_white_space(s[a]));
        assert(a < b) by {
            if b <= a {
                assert(is_white_space(s[a]));
            }
        }
        assert(t =~= s.subrange(a, b));
        assert(t[0] == s[a]);
        assert(t.last() == s[b - 1]);
        lemma_leading_white(t, 0);
        lemma_trailing_white(t, t.len() as int);
        assert(t.subrange(0, t.len() as int) =~= t);
    }
}

/// `s` without white space at its start and its end.
pub fn trim(s: &str) -> (r: &str)
    ensures
        r@ == trimmed(s@),
{
    let n = s.unicode_len();
    let mut a: usize = 0;
    while a < n && white_space(s.get_char(a))
        invariant
            n == s@.len(),
            0 <= a <= n,
            forall|k: int| 0 <= k < a ==> is_white_space(#[trigger] s@[k]),
        decreases n - a,
    {
        a = a + 1;
    }
    proof {
        lemma_leading_white(s@, a as int);
    }
    if a == n {
        return s.substring_char(0, 0);
    }
    let mut b: usize = n;
    while b > a && white_space(s.get_char(b - 1))
        invariant
            n == s@.len(),
            a < n,
            !is_white_space(s@[a as int]),
            a <= b <= n,
            forall|k: int| b <= k < n ==> is_white_space(#[trigger] s@[k]),
        decreases b,
    {
        b = b - 1;
    }
    proof {
        lemma_trailing_white(s@, b as int);
    }
    s.substring_char(a, b)
}

/// Where the first `:` of `s` stands, if there is one.
pub open spec fn first_colon(s: Seq<char>) -> Option<int> {
    if exists|i: int| 0 <= i < s.len() && s[i] == ':' {
        Some(choose|i: int| 0 <= i < s.len() && s[i] == ':' && forall|k: int| 0 <= k < i ==> s[k] != ':')
    } else {
        None
    }
}

proof fn lemma_min_colon(s: Seq<char>, j: int)
    requires
        0 <= j < s.len(),
        s[j] == ':',
    ensures
        exists|i: int| 0 <= i < s.len() && s[i] == ':' && forall|k: int| 0 <= k < i ==> s[k] != ':',
    decreases j,
{
    if exists|k: int| 0 <= k < j && s[k] == ':' {
        let k = choose|k: int| 0 <= k < j && s[k] == ':';
        lemma_min_colon(s, k);
    } else {
        assert(forall|k: int| 0 <= k < j ==> s[k] != ':');
    }
}

/// A text splits at its first colon: there is one exactly when the text
/// holds a colon, the part before it holds none, and the two parts joined by
/// the colon give back the text.
pub proof fn law_split_at_first_colon(s: Seq<char>)
    ensures
        first_colon(s) is None <==> !s.contains(':'),
        first_colon(s) matches Some(i) ==> {
            &&& 0 <= i < s.len()
            &&& !s.take(i).contains(':')
            &&& s == s.take(i) + seq![':'] + s.skip(i + 1)
        },
{
    if s.contains(':') {
        let j = choose|j: int| 0 <= j < s.len() && s[j] == ':';
        lemma_min_colon(s, j);
    }
    if let Some(i) = first_colon(s) {
        assert(s =~= s.take(i) + seq![':'] + s.skip(i + 1));
        assert(!s.take(i).contains(':')) by {
            if s.take(i).contains(':') {
                let k = choose|k: int| 0 <= k < s.take(i).len() && s.take(i)[k] == ':';
                assert(s[k] == ':');
            }
        }
    } else {
        if s.contains(':') {
            let k = choose|k: int| 0 <= k < s.len() && s[k] == ':';
            assert(s[k] == ':');
        }
    }
}

/// Splits `mod_name:path` at its first colon into the mod's name and the
/// path it is kept under; `None` if there is no colon.
pub fn split_name_path(name_path: &str) -> (r: Option<(&str, &str)>)
    ensures
        r is None <==> first_colon(name_path@) is None,
        r matches Some((name, path)) ==> {
            let i = first_colon(name_path@)->0;
            name@ == name_path@.take(i) && path@ == name_path@.skip(i + 1)
        },
        r is None <==> !name_path@.contains(':'),
        r matches Some((name, path)) ==> !name@.contains(':') && name_path@ == name@ + seq![':'] + path@,
{
    proof {
        law_split_at_first_colon(name_path@);
    }
    let n = name_path.unicode_len();
    let mut i: usize = 0;
    while i < n
        invariant
            n == name_path@.len(),
            0 <= i <= n,
            forall|k: int| 0 <= k < i ==> name_path@[k] != ':',
        decreases n - i,
    {
        if name_path.get_char(i) == ':' {
            proof {
                let s = name_path@;
                assert(exists|j: int| 0 <= j < s.len() && s[j] == ':');
                let c = choose|j: int| 0 <= j < s.len() && s[j] == ':' && forall|k: int| 0 <= k < j ==> s[k] != ':';
                assert(s[i as int] == ':');
                assert(c == i as int);
            }
            let name = name_path.substring_char(0, i);
            let path = name_path.substring_char(i + 1, n);
            return Some((name, path));
        }
        i = i + 1;
    }
    None
}

/// The client library of the mod named `mod_name:path`; `None` if the
/// name has no colon.
pub fn mod_library_path(name_path: &str) -> (r: Option<String>)
    ensures
        r is None <==> first_colon(name_path@) is None,
        r matches Some(p) ==> {
            let i = first_colon(name_path@)->0;
            p@ == client_lib_spec(name_path@.skip(i + 1), name_path@.take(i))
        },
{
    match split_name_path(name_path) {
        Some((name, path)) => Some(client_lib(path, name)),
        None => None,
    }
}

/// What the client knows of one mod of the server's profile.
pub struct LoadingModView {
    pub name_path: Seq<char>,
    pub name: Seq<char>,
    pub path: Seq<char>,
    pub flags: Seq<String>,
    pub hash: Seq<char>,
    pub total_size: u64,
    pub size: u64,
    pub data: Seq<u8>,
    pub available: bool,
}

/// A mod of the server's profile: present already, or being downloaded
/// into a buffer of its full size.
pub struct LoadingMod {
    name_path: String,
    name: String,
    path: String,
    flags: Vec<String>,
    hash: String,
    total_size: u64,
    size: u64,
    data: Vec<u8>,
    available: bool,
}

impl View for LoadingMod {
    type V = LoadingModView;

    closed spec fn view(&self) -> LoadingModView {
        LoadingModView {
            name_path: self.name_path@,
            name: self.name@,
            path: self.path@,
            flags: self.flags@,
            hash: self.hash@,
            total_size: self.total_size,
            size: self.size,
            data: self.data@,
            available: self.available,
        }
    }
}

/// A run of `n` zero bytes.
pub open spec fn zeros(n: nat) -> Seq<u8> {
    Seq::new(n, |i: int| 0u8)
}

/// `data` with the bytes from `offset` on replaced by `chunk`.
pub open spec fn written(data: Seq<u8>, offset: int, chunk: Seq<u8>) -> Seq<u8> {
    data.take(offset) + chunk + data.skip(offset + chunk.len())
}

fn zero_bytes(n: usize) -> (r: Vec<u8>)
    ensures
        r@ == zeros(n as nat),
{
    let mut v: Vec<u8> = Vec::new();
    let mut i: usize = 0;
    while i < n
        invariant
            0 <= i <= n,
            v@ =~= zeros(i as nat),
        decreases n - i,
    {
        v.push(0);
        i = i + 1;
    }
    v
}

impl LoadingMod {
    /// The entry for the mod `mod_name:path` of the server's profile, given
    /// the hash the client holds for it (empty if none). The mod is present
    /// when that hash, without surrounding white space, is the server's;
    /// otherwise a zeroed buffer of its size waits for its bytes. The entry
    /// keeps the mod's name also where its path belongs. `None` if the name
    /// has no colon.
    pub fn from_entry(name_path: &str, flags: Vec<String>, hash: String, size: u64, local_hash: &str) -> (r: Option<LoadingMod>)
        requires
            size <= usize::MAX,
        ensures
            r is None <==> first_colon(name_path@) is None,
            r matches Some(m) ==> {
                let name = name_path@.take(first_colon(name_path@)->0);
                let available = trimmed(local_hash@) == hash@;
                &&& m@.name_path == name_path@
                &&& m@.name == name
                &&& m@.path == name
                &&& m@.flags == flags@
                &&& m@.hash == hash@
                &&& m@.total_size == size
                &&& m@.available == available
                &&& m@.size == if available { size } else { 0 }
                &&& m@.data == if available { Seq::<u8>::empty() } else { zeros(size as nat) }
                &&& m.wf()
            },
    {
        let (name, _path) = match split_name_path(name_path) {
            Some(p) => p,
            None => return None,
        };
        let local = trim(local_hash);
        let available = str_eq(local, hash.as_str());
        let mut n = String::new();
        n.append(name);
        let mut p = String::new();
        p.append(name);
        let mut np = String::new();
        np.append(name_path);
        proof {
            assert(n@ =~= name@);
            assert(p@ =~= name@);
            assert(np@ =~= name_path@);
        }
        if available {
            Some(LoadingMod { name_path: np, name: n, path: p, flags, hash, total_size: size, size, data: Vec::new(), available: true })
        } else {
            Some(LoadingMod {
                name_path: np,
                name: n,
                path: p,
                flags,
                hash,
                total_size: size,
                size: 0,
                data: zero_bytes(size as usize),
                available: false,
            })
        }
    }

    /// A mod still downloading has a buffer of its full size, and has
    /// received no more bytes than that.
    pub open spec fn wf(&self) -> bool {
        !self@.available ==> self@.data.len() == self@.total_size && self@.size <= u64::MAX
    }

    /// The mod's `mod_name:path`, by which the server knows it.
    pub fn name_path(&self) -> (r: &str)
        ensures
            r@ == self@.name_path,
    {
        self.name_path.as_str()
    }

    pub fn name(&self) -> (r: &str)
        ensures
            r@ == self@.name,
    {
        self.name.as_str()
    }

    pub fn path(&self) -> (r: &str)
        ensures
            r@ == self@.path,
    {
        self.path.as_str()
    }

    pub fn flags(&self) -> (r: &Vec<String>)
        ensures
            r@ == self@.flags,
    {
        &self.flags
    }

    pub fn total_size(&self) -> (r: u64)
        ensures
            r == self@.total_size,
    {
        self.total_size
    }

    pub fn size(&self) -> (r: u64)
        ensures
            r == self@.size,
    {
        self.size
    }

    pub fn data(&self) -> (r: &[u8])
        ensures
            r@ == self@.data,
    {
        self.data.as_slice()
    }

    pub fn available(&self) -> (r: bool)
        ensures
            r == self@.available,
    {
        self.available
    }

    /// Stores a chunk of the mod's archive at its offset and counts its
    /// bytes as received.
    pub fn receive_chunk(&mut self, offset: u64, chunk: &[u8])
        requires
            offset + chunk@.len() <= old(self)@.data.len(),
            old(self)@.size + chunk@.len() <= u64::MAX,
        ensures
            final(self)@ == (LoadingModView {
                data: written(old(self)@.data, offset as int, chunk@),
                size: (old(self)@.size + chunk@.len()) as u64,
                ..old(self)@
            }),
    {
        let n = chunk.len();
        let len = self.data.len();
        proof {
            assert(offset <= len);
        }
        let start = offset as usize;
        let mut k: usize = 0;
        while k < n
            invariant
                n == chunk@.len(),
                start == offset,
                len == old(self)@.data.len(),
                start + n <= old(self)@.data.len(),
                0 <= k <= n,
                self.data@.len() == old(self)@.data.len(),
                forall|j: int| 0 <= j < start ==> #[trigger] self.data@[j] == old(self)@.data[j],
                forall|j: int| start + n <= j < self.data@.len() ==> #[trigger] self.data@[j] == old(self)@.data[j],
                forall|j: int| 0 <= j < k ==> #[trigger] self.data@[start + j] == chunk@[j],
                forall|j: int| k <= j < n ==> #[trigger] self.data@[start + j] == old(self)@.data[start + j],
                self.name_path == old(self).name_path,
                self.name == old(self).name,
                self.path == old(self).path,
                self.flags == old(self).flags,
                self.hash == old(self).hash,
                self.total_size == old(self).total_size,
                self.size == old(self).size,
                self.available == old(self).available,
            decreases n - k,
        {
            self.data.set(start + k, chunk[k]);
            k = k + 1;
        }
        self.size = self.size + n as u64;
        proof {
            let w = written(old(self)@.data, offset as int, chunk@);
            assert forall|j: int| 0 <= j < w.len() implies #[trigger] self.data@[j] == w[j] by {
                if start <= j < start + n {
                    assert(self.data@[start + (j - start)] == chunk@[j - start]);
                }
            }
            assert(self.data@ =~= w);
        }
    }
}

/// Whether two texts are equal.
fn str_eq(a: &str, b: &str) -> (r: bool)
    ensures
        r == (a@ == b@),
{
    let n = a.unicode_len();
    let m = b.unicode_len();
    if n != m {
        return false;
    }
    let mut i: usize = 0;
    while i < n
        invariant
            n == a@.len(),
            n == b@.len(),
            0 <= i <= n,
            forall|k: int| 0 <= k < i ==> a@[k] == b@[k],
        decreases n - i,
    {
        if a.get_char(i) != b.get_char(i) {
            return false;
        }
        i = i + 1;
    }
    proof {
        assert(a@ =~= b@);
    }
    true
}

/// The offsets of the chunks of a download of `total` bytes in chunks of
/// `chunk` bytes: `0, chunk, 2 * chunk, ...`, all below `total`.
pub open spec fn chunk_offsets_spec(total: u64, chunk: u64) -> Seq<u64> {
    Seq::new(((total + chunk - 1) / chunk as int) as nat, |k: int| (k * chunk) as u64)
}

/// The chunks of a download cover it exactly once: the offsets step by the
/// chunk size from 0, each lies inside the download, and the last chunk
/// reaches its end.
pub proof fn law_chunk_offsets_cover_download(total: u64, chunk: u64)
    requires
        chunk > 0,
    ensures
        ({
            let o = chunk_offsets_spec(total, chunk);
            &&& forall|k: int| 0 <= k < o.len() ==> #[trigger] o[k] == k * chunk && o[k] < total
            &&& total <= o.len() * chunk
            &&& (total > 0 ==> o.len() > 0 && o[0] == 0)
        }),
{
    let o = chunk_offsets_spec(total, chunk);
    let len = (total + chunk - 1) / chunk as int;
    assert(len >= 0 && total <= len * chunk && (len > 0 ==> (len - 1) * chunk < total)) by (nonlinear_arith)
        requires len == (total + chunk - 1) / chunk as int, chunk > 0, total >= 0;
    assert forall|k: int| 0 <= k < o.len() implies #[trigger] o[k] == k * chunk && o[k] < total by {
        assert(0 <= k * chunk < total) by (nonlinear_arith)
            requires 0 <= k < len, (len - 1) * chunk < total, chunk > 0;
    }
    if total > 0 {
        assert(len > 0) by (nonlinear_arith)
            requires total <= len * chunk, total > 0, len >= 0, chunk > 0;
        assert(o[0] == 0);
    }
}

/// The offsets at which the chunks of a download start.
pub fn chunk_offsets(total: u64, chunk: u64) -> (r: Vec<u64>)
    requires
        chunk > 0,
    ensures
        r@ == chunk_offsets_spec(total, chunk),
{
    let mut v: Vec<u64> = Vec::new();
    let mut i: u64 = 0;
    let ghost mut k: int = 0;
    while i < total
        invariant
            chunk > 0,
            i == k * chunk,
            0 <= k,
            k > 0 ==> (k - 1) * chunk < total,
            v@.len() == k,
            forall|j: int| 0 <= j < k ==> #[trigger] v@[j] == (j * chunk) as u64,
        decreases total - i,
    {
        v.push(i);
        proof {
            assert((k + 1) * chunk == k * chunk + chunk) by (nonlinear_arith);
            k = k + 1;
        }
        if total - i <= chunk {
            i = total;
            proof {
                assert(v@ =~= chunk_offsets_spec(total, chunk)) by {
                    lemma_ceil_div(total as int, chunk as int, k);
                }
            }
            return v;
        }
        i = i + chunk;
    }
    proof {
        lemma_ceil_div(total as int, chunk as int, k);
        assert(v@ =~= chunk_offsets_spec(total, chunk));
    }
    v
}

proof fn lemma_ceil_div(total: int, chunk: int, k: int)
    requires
        chunk > 0,
        0 <= total,
        0 <= k,
        k > 0 ==> (k - 1) * chunk < total,
        total <= k * chunk,
    ensures
        (total + chunk - 1) / chunk == k,
{
    assert((total + chunk - 1) / chunk == k) by (nonlinear_arith)
        requires
            chunk > 0,
            0 <= total,
            0 <= k,
            k > 0 ==> (k - 1) * chunk < total,
            total <= k * chunk,
    {
        if k == 0 {
            assert(total == 0);
        } else {
            assert(k * chunk <= total + chunk - 1);
            assert(total + chunk - 1 < (k + 1) * chunk);
        }
    }
}

/// The views of a list of mods.
pub open spec fn mod_views(mods: Seq<LoadingMod>) -> Seq<LoadingModView> {
    mods.map_values(|m: LoadingMod| m@)
}

/// The bytes received so far of the mods still downloading.
pub open spec fn pending_received(mods: Seq<LoadingModView>) -> int
    decreases mods.len(),
{
    if mods.len() == 0 {
        0
    } else {
        pending_received(mods.drop_last()) + if mods.last().available { 0 } else { mods.last().size as int }
    }
}

/// The full sizes of the mods still downloading.
pub open spec fn pending_total(mods: Seq<LoadingModView>) -> int
    decreases mods.len(),
{
    if mods.len() == 0 {
        0
    } else {
        pending_total(mods.drop_last()) + if mods.last().available { 0 } else { mods.last().total_size as int }
    }
}

/// Whether a mod still downloading has received all its bytes.
pub open spec fn completes(m: LoadingModView) -> bool {
    !m.available && m.size == m.total_size
}

/// The positions of the mods that have just received all their bytes.
pub open spec fn completed_positions(mods: Seq<LoadingModView>) -> Seq<usize>
    decreases mods.len(),
{
    if mods.len() == 0 {
        Seq::empty()
    } else {
        completed_positions(mods.drop_last()) + if completes(mods.last()) {
            seq![(mods.len() - 1) as usize]
        } else {
            Seq::empty()
        }
    }
}

/// A mod after a look at the download: present once all its bytes came.
pub open spec fn polled(m: LoadingModView) -> LoadingModView {
    if completes(m) {
        LoadingModView { available: true, ..m }
    } else {
        m
    }
}

proof fn lemma_pending_prefix(mods: Seq<LoadingModView>, i: int)
    requires
        0 <= i < mods.len(),
    ensures
        pending_received(mods.take(i + 1)) == pending_received(mods.take(i))
            + if mods[i].available { 0 } else { mods[i].size as int },
        pending_total(mods.take(i + 1)) == pending_total(mods.take(i))
            + if mods[i].available { 0 } else { mods[i].total_size as int },
        completed_positions(mods.take(i + 1)) == completed_positions(mods.take(i))
            + if completes(mods[i]) { seq![i as usize] } else { Seq::empty() },
{
    assert(mods.take(i + 1).drop_last() =~= mods.take(i));
}

proof fn lemma_pending_monotone(mods: Seq<LoadingModView>, i: int)
    requires
        0 <= i <= mods.len(),
    ensures
        pending_received(mods.take(i)) <= pending_received(mods),
        pending_total(mods.take(i)) <= pending_total(mods),
    decreases mods.len() - i,
{
    if i < mods.len() {
        lemma_pending_prefix(mods, i);
        lemma_pending_monotone(mods, i + 1);
    } else {
        assert(mods.take(i) =~= mods);
    }
}

/// The number of mods still to download, and the sum of their sizes.
pub fn missing_mods(mods: &Vec<LoadingMod>) -> (r: (usize, u64))
    requires
        pending_total(mod_views(mods@)) <= u64::MAX,
    ensures
        r.1 == pending_total(mod_views(mods@)),
        r.0 == mod_views(mods@).filter(|m: LoadingModView| !m.available).len(),
{
    let ghost views = mod_views(mods@);
    let mut count: usize = 0;
    let mut total: u64 = 0;
    let n = mods.len();
    let mut i: usize = 0;
    while i < n
        invariant
            n == mods@.len(),
            views == mod_views(mods@),
            pending_total(views) <= u64::MAX,
            0 <= i <= n,
            count == views.take(i as int).filter(|m: LoadingModView| !m.available).len(),
            count <= i,
            total == pending_total(views.take(i as int)),
        decreases n - i,
    {
        proof {
            lemma_pending_prefix(views, i as int);
            lemma_pending_monotone(views, i + 1);
            reveal(Seq::filter);
            assert(views.take(i + 1).drop_last() =~= views.take(i as int));
            assert(views[i as int] == mods@[i as int]@);
        }
        if !mods[i].available {
            count = count + 1;
            total = total + mods[i].total_size;
        }
        i = i + 1;
    }
    proof {
        assert(views.take(n as int) =~= views);
    }
    (count, total)
}

/// One look at the download: every mod still downloading that has all its
/// bytes becomes present. Returns whether the bytes received by the mods
/// that were still downloading add up to `total`, and the positions of the
/// mods that became present, in order.
pub fn poll_downloads(mods: &mut Vec<LoadingMod>, total: u64) -> (r: (bool, Vec<usize>))
    requires
        pending_received(mod_views(old(mods)@)) <= u64::MAX,
    ensures
        mod_views(final(mods)@) == mod_views(old(mods)@).map_values(|m: LoadingModView| polled(m)),
        r.0 == (pending_received(mod_views(old(mods)@)) == total),
        r.1@ == completed_positions(mod_views(old(mods)@)),
{
    let ghost views = mod_views(mods@);
    let mut downloaded: u64 = 0;
    let mut completed: Vec<usize> = Vec::new();
    let n = mods.len();
    let mut i: usize = 0;
    while i < n
        invariant
            n == mods@.len(),
            n == views.len(),
            views == mod_views(old(mods)@),
            pending_received(views) <= u64::MAX,
            0 <= i <= n,
            downloaded == pending_received(views.take(i as int)),
            completed@ == completed_positions(views.take(i as int)),
            forall|j: int| 0 <= j < i ==> #[trigger] mods@[j]@ == polled(views[j]),
            forall|j: int| i <= j < n ==> #[trigger] mods@[j]@ == views[j],
        decreases n - i,
    {
        proof {
            lemma_pending_prefix(views, i as int);
            lemma_pending_monotone(views, i + 1);
            assert(mods@[i as int]@ == views[i as int]);
        }
        if !mods[i].available {
            downloaded = downloaded + mods[i].size;
            if mods[i].size == mods[i].total_size {
                let m = &mut mods[i];
                m.available = true;
                completed.push(i);
            }
        }
        i = i + 1;
    }
    proof {
        assert(views.take(n as int) =~= views);
        assert(mod_views(mods@) =~= views.map_values(|m: LoadingModView| polled(m)));
    }
    (downloaded == total, completed)
}

/// The chunk of `archive` that starts at `offset`: `chunk` bytes, or fewer
/// at its end.
pub open spec fn chunk_of(archive: Seq<u8>, offset: int, chunk: int) -> Seq<u8> {
    archive.subrange(offset, if offset + chunk < archive.len() { offset + chunk } else { archive.len() as int })
}

/// The buffer after receiving, in order, the chunks of `archive` at the
/// given offsets.
pub open spec fn receive_all(data: Seq<u8>, archive: Seq<u8>, offsets: Seq<u64>, chunk: int) -> Seq<u8>
    decreases offsets.len(),
{
    if offsets.len() == 0 {
        data
    } else {
        written(
            receive_all(data, archive, offsets.drop_last(), chunk),
            offsets.last() as int,
            chunk_of(archive, offsets.last() as int, chunk),
        )
    }
}

/// The number of bytes in the chunks of `archive` at the given offsets.
pub open spec fn received_total(archive: Seq<u8>, offsets: Seq<u64>, chunk: int) -> int
    decreases offsets.len(),
{
    if offsets.len() == 0 {
        0
    } else {
        received_total(archive, offsets.drop_last(), chunk) + chunk_of(archive, offsets.last() as int, chunk).len()
    }
}

proof fn lemma_below_ceil(total: int, chunk: int, k: int)
    requires
        chunk > 0,
        0 <= total,
        0 <= k < (total + chunk - 1) / chunk,
    ensures
        k * chunk < total,
        (k + 1) * chunk == k * chunk + chunk,
{
    assert(k * chunk < total) by (nonlinear_arith)
        requires
            chunk > 0,
            0 <= total,
            0 <= k < (total + chunk - 1) / chunk,
    {
        let q = (total + chunk - 1) / chunk;
        assert(q * chunk <= total + chunk - 1);
        assert((k + 1) * chunk <= q * chunk);
    }
    assert((k + 1) * chunk == k * chunk + chunk) by (nonlinear_arith);
}

proof fn lemma_ceil_covers(total: int, chunk: int)
    requires
        chunk > 0,
        0 <= total,
    ensures
        total <= ((total + chunk - 1) / chunk) * chunk,
        0 <= (total + chunk - 1) / chunk,
{
    assert(total <= ((total + chunk - 1) / chunk) * chunk) by (nonlinear_arith)
        requires
            chunk > 0,
            0 <= total,
    {
        let q = (total + chunk - 1) / chunk;
        let r = (total + chunk - 1) % chunk;
        assert(q * chunk + r == total + chunk - 1);
        assert(r < chunk);
    }
    assert(0 <= (total + chunk - 1) / chunk) by (nonlinear_arith)
        requires
            chunk > 0,
            0 <= total,
    ;
}

proof fn lemma_receive_prefix(data: Seq<u8>, archive: Seq<u8>, chunk: u64, k: int)
    requires
        chunk > 0,
        data.len() == archive.len(),
        archive.len() <= u64::MAX,
        0 <= k <= chunk_offsets_spec(archive.len() as u64, chunk).len(),
    ensures
        ({
            let offs = chunk_offsets_spec(archive.len() as u64, chunk).take(k);
            let m = if k * chunk < archive.len() { k * chunk } else { archive.len() as int };
            &&& receive_all(data, archive, offs, chunk as int) == archive.take(m) + data.skip(m)
            &&& received_total(archive, offs, chunk as int) == m
        }),
    decreases k,
{
    let total = archive.len() as int;
    let all = chunk_offsets_spec(archive.len() as u64, chunk);
    let offs = all.take(k);
    if k == 0 {
        assert(offs =~= Seq::<u64>::empty());
        assert(k * chunk == 0) by (nonlinear_arith)
            requires
                k == 0;
        assert(archive.take(0) + data.skip(0) =~= data);
    } else {
        lemma_receive_prefix(data, archive, chunk, k - 1);
        lemma_below_ceil(total, chunk as int, k - 1);
        let o = (k - 1) * chunk;
        assert(offs.drop_last() =~= all.take(k - 1));
        assert(offs.last() == all[k - 1]);
        assert(all[k - 1] == ((k - 1) * chunk) as u64);
        assert(offs.last() as int == o);
        let prev = archive.take(o) + data.skip(o);
        let c = chunk_of(archive, o, chunk as int);
        let m = if k * chunk < total { k * chunk } else { total };
        assert(c =~= archive.subrange(o, m));
        assert(written(prev, o, c) =~= archive.take(m) + data.skip(m));
        assert(receive_all(data, archive, all.take(k - 1), chunk as int) == prev);
        assert(receive_all(data, archive, offs, chunk as int) == written(
            receive_all(data, archive, offs.drop_last(), chunk as int),
            offs.last() as int,
            chunk_of(archive, offs.last() as int, chunk as int),
        ));
        assert(received_total(archive, all.take(k - 1), chunk as int) == o);
        assert(c.len() == m - o);
        assert(received_total(archive, offs, chunk as int)
            == received_total(archive, offs.drop_last(), chunk as int) + c.len());
    }
}

/// Receiving, in order, every chunk of a mod's archive at the offsets the
/// download asks for fills the buffer with the archive, and the bytes
/// received add up to its size, so that the mod is complete.
pub proof fn law_all_chunks_restore_archive(data: Seq<u8>, archive: Seq<u8>, chunk: u64)
    requires
        chunk > 0,
        data.len() == archive.len(),
        archive.len() <= u64::MAX,
    ensures
        receive_all(data, archive, chunk_offsets_spec(archive.len() as u64, chunk), chunk as int) == archive,
        received_total(archive, chunk_offsets_spec(archive.len() as u64, chunk), chunk as int) == archive.len(),
{
    let total = archive.len() as int;
    let all = chunk_offsets_spec(archive.len() as u64, chunk);
    let k = all.len() as int;
    lemma_ceil_covers(total, chunk as int);
    lemma_receive_prefix(data, archive, chunk, k);
    assert(all.take(k) =~= all);
    assert(archive.take(total) + data.skip(total) =~= archive);
}

/// The chunk requests of one mod, as its position and the chunk's offset.
pub open spec fn mod_requests(k: int, m: LoadingModView, chunk: u64) -> Seq<(usize, u64)> {
    if m.available {
        Seq::empty()
    } else {
        chunk_offsets_spec(m.total_size, chunk).map_values(|o: u64| (k as usize, o))
    }
}

/// The chunk requests of the mods still to download, mod by mod in order,
/// each mod's chunks by rising offset.
pub open spec fn download_requests_spec(mods: Seq<LoadingModView>, chunk: u64) -> Seq<(usize, u64)>
    decreases mods.len(),
{
    if mods.len() == 0 {
        Seq::empty()
    } else {
        download_requests_spec(mods.drop_last(), chunk) + mod_requests(mods.len() - 1, mods.last(), chunk)
    }
}

/// Only missing mods are asked for: every request names a mod that is not
/// present yet and an offset inside its archive at a whole number of chunks.
pub proof fn law_requests_only_missing_mods(mods: Seq<LoadingModView>, chunk: u64)
    requires
        chunk > 0,
        mods.len() <= usize::MAX,
    ensures
        forall|q: int| 0 <= q < download_requests_spec(mods, chunk).len() ==> {
            let (k, o) = #[trigger] download_requests_spec(mods, chunk)[q];
            &&& k < mods.len()
            &&& !mods[k as int].available
            &&& o < mods[k as int].total_size
            &&& o % chunk == 0
        },
    decreases mods.len(),
{
    if mods.len() > 0 {
        let d = mods.drop_last();
        law_requests_only_missing_mods(d, chunk);
        let n = mods.len() - 1;
        let m = mods.last();
        let prev = download_requests_spec(d, chunk);
        let own = mod_requests(n, m, chunk);
        let all = download_requests_spec(mods, chunk);
        assert(all == prev + own);
        law_chunk_offsets_cover_download(m.total_size, chunk);
        assert forall|q: int| 0 <= q < all.len() implies {
            let (k, o) = #[trigger] all[q];
            &&& k < mods.len()
            &&& !mods[k as int].available
            &&& o < mods[k as int].total_size
            &&& o % chunk == 0
        } by {
            if q < prev.len() {
                assert(all[q] == prev[q]);
                let (k, o) = prev[q];
                assert(mods[k as int] == d[k as int]);
            } else {
                let j = q - prev.len();
                assert(all[q] == own[j]);
                assert(!m.available);
                let offs = chunk_offsets_spec(m.total_size, chunk);
                assert(own[j] == (n as usize, offs[j]));
                assert(offs[j] == j * chunk);
                assert((j * chunk) % (chunk as int) == 0) by (nonlinear_arith)
                    requires chunk > 0, j >= 0;
            }
        }
    }
}

/// The requests to send for the mods still to download: for each, one per
/// chunk of `chunk` bytes, naming the mod by its position and the chunk by
/// its offset. The server knows the mod by its `name_path`.
pub fn download_requests(mods: &Vec<LoadingMod>, chunk: u64) -> (r: Vec<(usize, u64)>)
    requires
        chunk > 0,
    ensures
        r@ == download_requests_spec(mod_views(mods@), chunk),
{
    let ghost views = mod_views(mods@);
    let mut out: Vec<(usize, u64)> = Vec::new();
    let n = mods.len();
    let mut k: usize = 0;
    while k < n
        invariant
            chunk > 0,
            n == mods@.len(),
            views == mod_views(mods@),
            0 <= k <= n,
            out@ == download_requests_spec(views.take(k as int), chunk),
        decreases n - k,
    {
        proof {
            assert(views.take(k + 1).drop_last() =~= views.take(k as int));
            assert(views[k as int] == mods@[k as int]@);
        }
        let ghost before = out@;
        if !mods[k].available {
            let offsets = chunk_offsets(mods[k].total_size, chunk);
            let m = offsets.len();
            let mut j: usize = 0;
            while j < m
                invariant
                    m == offsets@.len(),
                    0 <= j <= m,
                    out@ =~= before + offsets@.take(j as int).map_values(|o: u64| (k as usize, o)),
                decreases m - j,
            {
                out.push((k, offsets[j]));
                proof {
                    assert(offsets@.take(j + 1) =~= offsets@.take(j as int).push(offsets@[j as int]));
                }
                j = j + 1;
            }
            proof {
                assert(offsets@.take(m as int) =~= offsets@);
            }
        } else {
            proof {
                assert(out@ =~= before + Seq::<(usize, u64)>::empty());
            }
        }
        k = k + 1;
    }
    proof {
        assert(views.take(n as int) =~= views);
    }
    out
}

} // verus!
