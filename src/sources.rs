use vstd::prelude::*;
use crate::certificate::copy_bytes;
use crate::coordinator::SourceEvent;
use crate::pem::{decode_pem, pem_decode, PemParseError};
use crate::pki_data::{empty_pki_data, merged, ParsedPkiData, PkiDataView};

verus! {

/// Where the Kubernetes source's settings come from.
pub trait KubernetesPkiStoreConfiguration {
    /// The namespace of the secret.
    fn get_pki_kubernetes_namespace(&self) -> String;

    /// The name of the secret.
    fn get_pki_kubernetes_secret_name(&self) -> String;

    /// The keys of the secret whose values hold PEM material.
    fn get_pki_kubernetes_resource_keys(&self) -> Vec<String>;
}

/// Where the file source's settings come from.
pub trait FilePkiStoreConfiguration {
    fn get_file_path(&self) -> String;
}

/// Where the SPIFFE source's settings come from.
pub trait SpiffePkiStoreConfiguration {
    fn get_spiffe_path(&self) -> String;
}

/// The settings of a Kubernetes source, read once.
pub struct KubernetesSecreteWatcherConfigurationInner {
    pub pki_kubernetes_namespace: String,
    pub get_pki_kubernetes_secret_name: String,
    pub get_pki_kubernetes_resource_keys: Vec<String>,
}

impl KubernetesSecreteWatcherConfigurationInner {
    /// Reads the settings from `config`.
    pub fn from_configuration<C: KubernetesPkiStoreConfiguration>(config: &C) -> (r: Self) {
        KubernetesSecreteWatcherConfigurationInner {
            pki_kubernetes_namespace: config.get_pki_kubernetes_namespace(),
            get_pki_kubernetes_secret_name: config.get_pki_kubernetes_secret_name(),
            get_pki_kubernetes_resource_keys: config.get_pki_kubernetes_resource_keys(),
        }
    }
}

/// Why the Kubernetes source could not fetch its secret.
#[derive(PartialEq, Eq, Structural, Clone, Copy, Debug)]
pub enum KubernetesError {
    /// The secret or its namespace does not exist.
    SecretNotFound,
    /// The API server could not be reached, or answered with an error.
    Unavailable,
}

impl KubernetesError {
    /// The source event this error amounts to: a missing secret is a
    /// configuration error, anything else is transient.
    pub fn event(&self) -> (r: SourceEvent)
        ensures
            *self == KubernetesError::SecretNotFound ==> r == SourceEvent::ConfigurationError,
            *self == KubernetesError::Unavailable ==> r == SourceEvent::RetrievalFailed,
    {
        match self {
            KubernetesError::SecretNotFound => SourceEvent::ConfigurationError,
            KubernetesError::Unavailable => SourceEvent::RetrievalFailed,
        }
    }
}

/// Why the file source failed.
#[derive(PartialEq, Eq, Structural, Clone, Copy, Debug)]
pub enum FileStoreError {
    /// The file could not be read.
    Unreadable,
    /// The file's contents did not decode.
    Decode(PemParseError),
}

impl FileStoreError {
    /// The source event this error amounts to.
    pub fn event(&self) -> (r: SourceEvent)
        ensures
            *self == FileStoreError::Unreadable ==> r == SourceEvent::RetrievalFailed,
            *self matches FileStoreError::Decode(_) ==> r == SourceEvent::DecodeFailed,
    {
        match self {
            FileStoreError::Unreadable => SourceEvent::RetrievalFailed,
            FileStoreError::Decode(_) => SourceEvent::DecodeFailed,
        }
    }
}

/// Why PEM material could not be taken from a secret.
#[derive(PartialEq, Eq, Structural, Clone, Copy, Debug)]
pub enum ParseKubernetesPemSecreteError {
    /// A value did not decode.
    DecodePemError(PemParseError),
    /// The secret has no data.
    InvalidData,
    /// The secret has no value under a requested key.
    InvalidKey,
}

/// The value under `key` in a secret's data: the first entry of that key.
pub open spec fn secret_value(data: Seq<(Seq<char>, Seq<u8>)>, key: Seq<char>) -> Option<Seq<u8>>
    decreases data.len(),
{
    if data.len() == 0 {
        None
    } else if data[0].0 == key {
        Some(data[0].1)
    } else {
        secret_value(data.drop_first(), key)
    }
}

pub open spec fn entries_view(data: Seq<(String, Vec<u8>)>) -> Seq<(Seq<char>, Seq<u8>)> {
    data.map_values(|e: (String, Vec<u8>)| (e.0@, e.1@))
}

/// The value stored under `key` in a secret's data (`None` when the secret
/// has no data at all).
pub fn parse_kubernetes_secret(data: &Option<Vec<(String, Vec<u8>)>>, key: &String) -> (r: Result<
    Vec<u8>,
    ParseKubernetesPemSecreteError,
>)
    ensures
        data is None ==> r == Err::<Vec<u8>, ParseKubernetesPemSecreteError>(
            ParseKubernetesPemSecreteError::InvalidData,
        ),
        data matches Some(d) ==> match secret_value(entries_view(d@), key@) {
            Some(v) => r matches Ok(b) && b@ == v,
            None => r == Err::<Vec<u8>, ParseKubernetesPemSecreteError>(
                ParseKubernetesPemSecreteError::InvalidKey,
            ),
        },
{
    let entries = match data {
        Some(d) => d,
        None => return Err(ParseKubernetesPemSecreteError::InvalidData),
    };
    let ghost ev = entries_view(entries@);
    assert(ev.subrange(0, ev.len() as int) =~= ev);
    let mut i: usize = 0;
    while i < entries.len()
        invariant
            0 <= i <= entries@.len(),
            ev == entries_view(entries@),
            data matches Some(d) && d@ == entries@,
            secret_value(ev, key@) == secret_value(ev.subrange(i as int, ev.len() as int), key@),
        decreases entries@.len() - i,
    {
        let ghost rest = ev.subrange(i as int, ev.len() as int);
        assert(rest.drop_first() =~= ev.subrange(i + 1, ev.len() as int));
        assert(rest[0] == (entries@[i as int].0@, entries@[i as int].1@));
        if entries[i].0 == *key {
            let v = copy_bytes(&entries[i].1);
            assert(secret_value(rest, key@) == Some(v@));
            return Ok(v);
        }
        i = i + 1;
    }
    assert(ev.subrange(i as int, ev.len() as int) =~= Seq::<(Seq<char>, Seq<u8>)>::empty());
    Err(ParseKubernetesPemSecreteError::InvalidKey)
}

/// The object set decoded from the values of `keys`, in key order; the first
/// missing key or undecodable value is the error.
pub open spec fn secret_delta(data: Seq<(Seq<char>, Seq<u8>)>, keys: Seq<Seq<char>>) -> Result<
    PkiDataView,
    ParseKubernetesPemSecreteError,
>
    decreases keys.len(),
{
    if keys.len() == 0 {
        Ok(empty_pki_data())
    } else {
        match secret_delta(data, keys.drop_last()) {
            Err(e) => Err(e),
            Ok(acc) => match secret_value(data, keys.last()) {
                None => Err(ParseKubernetesPemSecreteError::InvalidKey),
                Some(v) => match pem_decode(v) {
                    Err(e) => Err(ParseKubernetesPemSecreteError::DecodePemError(e)),
                    Ok(d) => Ok(merged(acc, d)),
                },
            },
        }
    }
}

proof fn lemma_secret_delta_error_stays(
    data: Seq<(Seq<char>, Seq<u8>)>,
    keys: Seq<Seq<char>>,
    j: int,
    n: int,
)
    requires
        0 <= j <= n <= keys.len(),
        secret_delta(data, keys.subrange(0, j)) is Err,
    ensures
        secret_delta(data, keys.subrange(0, n)) == secret_delta(data, keys.subrange(0, j)),
    decreases n - j,
{
    if n > j {
        lemma_secret_delta_error_stays(data, keys, j, n - 1);
        assert(keys.subrange(0, n).drop_last() =~= keys.subrange(0, n - 1));
    }
}

pub open spec fn strings_view(s: Seq<String>) -> Seq<Seq<char>> {
    s.map_values(|x: String| x@)
}

/// Decodes the PEM material stored under each of `keys` in a secret into one
/// delta. Nothing is returned unless every key is present and decodes.
pub fn load_secret_keys(data: &Option<Vec<(String, Vec<u8>)>>, keys: &Vec<String>) -> (r: Result<
    ParsedPkiData,
    ParseKubernetesPemSecreteError,
>)
    ensures
        data is None && keys@.len() > 0 ==> r == Err::<ParsedPkiData, ParseKubernetesPemSecreteError>(
            ParseKubernetesPemSecreteError::InvalidData,
        ),
        data matches Some(d) ==> match secret_delta(entries_view(d@), strings_view(keys@)) {
            Ok(v) => r matches Ok(x) && x@ == v,
            Err(e) => r matches Err(x) && x == e,
        },
        data is None && keys@.len() == 0 ==> (r matches Ok(x) && x@ == empty_pki_data()),
{
    let mut delta = ParsedPkiData::new();
    let ghost kv = strings_view(keys@);
    let mut i: usize = 0;
    while i < keys.len()
        invariant
            0 <= i <= keys@.len(),
            kv == strings_view(keys@),
            data is None ==> i == 0,
            i == 0 ==> delta@ == empty_pki_data(),
            data matches Some(d) ==> secret_delta(entries_view(d@), kv.subrange(0, i as int)) == Ok::<
                PkiDataView,
                ParseKubernetesPemSecreteError,
            >(delta@),
        decreases keys@.len() - i,
    {
        let ghost pre = kv.subrange(0, i + 1);
        assert(pre.drop_last() =~= kv.subrange(0, i as int));
        assert(pre.last() == keys@[i as int]@);
        let bytes = match parse_kubernetes_secret(data, &keys[i]) {
            Ok(b) => b,
            Err(e) => {
                proof {
                    if let Some(d) = data {
                        lemma_secret_delta_error_stays(
                            entries_view(d@),
                            kv,
                            i + 1,
                            kv.len() as int,
                        );
                        assert(kv.subrange(0, kv.len() as int) =~= kv);
                    }
                }
                return Err(e);
            },
        };
        match decode_pem(bytes.as_slice()) {
            Ok(mut d) => delta.merge(&mut d),
            Err(e) => {
                proof {
                    if let Some(d) = data {
                        lemma_secret_delta_error_stays(
                            entries_view(d@),
                            kv,
                            i + 1,
                            kv.len() as int,
                        );
                        assert(kv.subrange(0, kv.len() as int) =~= kv);
                    }
                }
                return Err(ParseKubernetesPemSecreteError::DecodePemError(e));
            },
        }
        i = i + 1;
    }
    assert(kv.subrange(0, i as int) =~= kv);
    Ok(delta)
}

} // verus!
