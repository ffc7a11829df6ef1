//! The built-in loaders: what each decides on its own, apart from the calls that fetch values.
use vstd::prelude::*;
use crate::template::chars_of;

verus! {

/// The address of the EC2 instance metadata service.
pub const METADATA_BASE_URL: &'static str = "http://169.254.169.254/latest/meta-data";

/// Loads values from environment variables: the key is the variable's name.
#[derive(Debug)]
pub struct EnvironmentLoader {}

impl EnvironmentLoader {
    pub fn new() -> (r: EnvironmentLoader) {
        EnvironmentLoader {}
    }
}

/// `p` without its leading `/` characters.
pub open spec fn trim_leading_slashes(p: Seq<char>) -> Seq<char>
    decreases p.len(),
{
    if p.len() > 0 && p[0] == '/' {
        trim_leading_slashes(p.drop_first())
    } else {
        p
    }
}

/// `b`, ending in `/`.
pub open spec fn with_trailing_slash(b: Seq<char>) -> Seq<char> {
    if b.len() > 0 && b.last() == '/' {
        b
    } else {
        b.push('/')
    }
}

/// The address of metadata path `path` under `base`: exactly one `/` stands between them.
pub open spec fn metadata_url(base: Seq<char>, path: Seq<char>) -> Seq<char> {
    with_trailing_slash(base) + trim_leading_slashes(path)
}

/// Loads values from the EC2 instance metadata service: the key is the metadata path.
#[derive(Debug)]
pub struct AwsEc2MetadataLoader<'a> {
    metadata_url: &'a str,
}

impl<'a> AwsEc2MetadataLoader<'a> {
    /// The base address this loader reads under.
    pub closed spec fn base(self) -> Seq<char> {
        self.metadata_url@
    }

    /// A loader for the default metadata service endpoint.
    pub fn new() -> (r: AwsEc2MetadataLoader<'static>)
        ensures
            r.base() == METADATA_BASE_URL@,
    {
        AwsEc2MetadataLoader::with_base_url(METADATA_BASE_URL)
    }

    /// A loader for the metadata service at `url`.
    pub fn with_base_url(url: &'a str) -> (r: AwsEc2MetadataLoader<'a>)
        ensures
            r.base() == url@,
    {
        AwsEc2MetadataLoader { metadata_url: url }
    }

    /// The base address this loader reads under.
    pub fn base_url(&self) -> (r: &'a str)
        ensures
            r@ == self.base(),
    {
        self.metadata_url
    }

    /// The address to fetch for metadata path `path`, whether or not the base ends in `/` and
    /// whether or not the path starts with one.
    pub fn url_for(&self, path: &str) -> (r: String)
        ensures
            r@ == metadata_url(self.base(), path@),
    {
        let mut url = self.metadata_url.to_owned();
        let n = self.metadata_url.unicode_len();
        if n == 0 || self.metadata_url.get_char(n - 1) != '/' {
            let slash = "/";
            proof {
                reveal_strlit("/");
            }
            url.append(slash);
            assert(url@ =~= with_trailing_slash(self.base()));
        }
        let pc = chars_of(path);
        let m = pc.len();
        let mut k: usize = 0;
        assert(path@.subrange(0, m as int) =~= path@);
        while k < m && pc[k] == '/'
            invariant
                pc@ == path@,
                m == path@.len(),
                k <= m,
                trim_leading_slashes(path@) == trim_leading_slashes(path@.subrange(k as int, m as int)),
            decreases m - k,
        {
            assert(path@.subrange(k as int, m as int).drop_first() =~= path@.subrange(k + 1, m as int));
            k = k + 1;
        }
        assert(trim_leading_slashes(path@.subrange(k as int, m as int)) == path@.subrange(
            k as int,
            m as int,
        ));
        url.append(path.substring_char(k, m));
        url
    }
}

/// A tag of an EC2 instance: its key and its value, either of which may be missing.
#[derive(Debug)]
pub struct Tag {
    pub key: Option<String>,
    pub value: Option<String>,
}

/// The key of a tag; a missing key reads as empty.
pub open spec fn key_text(t: Tag) -> Seq<char> {
    match t.key {
        Some(k) => k@,
        None => Seq::empty(),
    }
}

/// What `str::to_lowercase` makes of a text.
pub uninterp spec fn lower_of(s: Seq<char>) -> Seq<char>;

/// Relies on `str::to_lowercase`: the lowercase form of a text depends on its characters alone.
#[verifier::external_body]
fn lowercase(s: &str) -> (r: String)
    ensures
        r@ == lower_of(s@),
{
    s.to_lowercase()
}

/// Whether `j` is the first position of `keys` that holds `k`.
pub open spec fn first_at(keys: Seq<Seq<char>>, k: Seq<char>, j: int) -> bool {
    &&& 0 <= j < keys.len()
    &&& keys[j] == k
    &&& forall|i: int| 0 <= i < j ==> keys[i] != k
}

/// The tag keys of `tags` in lowercase, in order.
pub open spec fn folded_keys(tags: Seq<Tag>) -> Seq<Seq<char>> {
    tags.map_values(|t: Tag| lower_of(key_text(t)))
}

/// The first position of `keys` that holds `key`.
pub fn first_match(keys: &Vec<String>, key: &String) -> (r: Option<usize>)
    ensures
        match r {
            Some(j) => first_at(keys@.map_values(|s: String| s@), key@, j as int),
            None => forall|i: int| 0 <= i < keys@.len() ==> keys@[i]@ != key@,
        },
{
    let ghost ks = keys@.map_values(|s: String| s@);
    let mut j: usize = 0;
    while j < keys.len()
        invariant
            ks == keys@.map_values(|s: String| s@),
            j <= keys@.len(),
            forall|i: int| 0 <= i < j ==> keys@[i]@ != key@,
        decreases keys@.len() - j,
    {
        if keys[j] == *key {
            return Some(j);
        }
        j = j + 1;
    }
    None
}

/// Why a tag could not be read.
#[derive(Debug)]
pub enum TagError {
    /// The tag query answered without a tag list.
    MissingTags,
    /// No tag has this key, compared without regard to case.
    NotFound { key: String },
    /// The tag with this key has no value.
    NoValue { key: String },
}

impl TagError {
    /// A description of the failure for a diagnostic.
    pub fn message(&self) -> (r: String)
        ensures
            r@ == match self {
                TagError::MissingTags => "Tags missing from response"@,
                TagError::NotFound { key } => "Tag with key '"@ + key@ + "' not found"@,
                TagError::NoValue { .. } => "Tag has no value"@,
            },
    {
        match self {
            TagError::MissingTags => "Tags missing from response".to_owned(),
            TagError::NotFound { key } => {
                let mut m = "Tag with key '".to_owned();
                m.append(key.as_str());
                m.append("' not found");
                m
            },
            TagError::NoValue { .. } => "Tag has no value".to_owned(),
        }
    }
}

/// Loads values from the tags of the EC2 instance it runs on: the key is the tag key, compared
/// without regard to case. The tags are fetched once, when the loader is built, and every later
/// lookup is served from them.
#[derive(Debug)]
pub struct AwsEc2TagLoader {
    tags: Vec<Tag>,
}

impl AwsEc2TagLoader {
    /// The tags this loader serves.
    pub closed spec fn tag_list(self) -> Seq<Tag> {
        self.tags@
    }

    /// A loader over the tags of a tag query's answer; a missing tag list is an error.
    pub fn from_tags(tags: Option<Vec<Tag>>) -> (r: Result<AwsEc2TagLoader, TagError>)
        ensures
            match tags {
                Some(t) => r matches Ok(l) && l.tag_list() == t@,
                None => r matches Err(TagError::MissingTags),
            },
    {
        match tags {
            Some(tags) => Ok(AwsEc2TagLoader { tags }),
            None => Err(TagError::MissingTags),
        }
    }

    /// The value of the first tag whose key equals `key` without regard to case.
    pub fn get_tag_value(&self, key: &str) -> (r: Result<String, TagError>)
        ensures
            match r {
                Ok(v) => exists|j: int|
                    first_at(folded_keys(self.tag_list()), lower_of(key@), j)
                        && ((#[trigger] self.tag_list()[j]).value matches Some(x) && x@ == v@),
                Err(TagError::NotFound { key: k }) => k@ == key@ && forall|i: int|
                    0 <= i < self.tag_list().len() ==> #[trigger] folded_keys(self.tag_list())[i]
                        != lower_of(key@),
                Err(TagError::NoValue { key: k }) => k@ == key@ && exists|j: int|
                    first_at(folded_keys(self.tag_list()), lower_of(key@), j)
                        && (#[trigger] self.tag_list()[j]).value is None,
                Err(TagError::MissingTags) => false,
            },
    {
        let wanted = lowercase(key);
        let mut folded: Vec<String> = Vec::new();
        let mut i: usize = 0;
        while i < self.tags.len()
            invariant
                i <= self.tags@.len(),
                folded@.map_values(|s: String| s@) == folded_keys(self.tags@).subrange(0, i as int),
            decreases self.tags@.len() - i,
        {
            let f = match &self.tags[i].key {
                Some(k) => lowercase(k.as_str()),
                None => lowercase(""),
            };
            proof {
                if self.tags@[i as int].key is None {
                    reveal_strlit("");
                    assert(""@ =~= Seq::<char>::empty());
                }
            }
            assert(f@ == folded_keys(self.tags@)[i as int]);
            let ghost before = folded@.map_values(|s: String| s@);
            folded.push(f);
            assert(folded@.map_values(|s: String| s@) =~= before.push(folded@[i as int]@));
            assert(folded@.map_values(|s: String| s@) =~= folded_keys(self.tags@).subrange(
                0,
                i + 1,
            ));
            i = i + 1;
        }
        assert(folded_keys(self.tags@).subrange(0, i as int) =~= folded_keys(self.tags@));
        match first_match(&folded, &wanted) {
            Some(j) => match &self.tags[j].value {
                Some(v) => {
                    assert(first_at(folded_keys(self.tag_list()), lower_of(key@), j as int));
                    assert(self.tag_list()[j as int] == self.tags@[j as int]);
                    Ok(v.clone())
                },
                None => {
                    assert(first_at(folded_keys(self.tag_list()), lower_of(key@), j as int));
                    assert(self.tag_list()[j as int] == self.tags@[j as int]);
                    Err(TagError::NoValue { key: key.to_owned() })
                },
            },
            None => {
                assert forall|i: int| 0 <= i < self.tag_list().len() implies #[trigger] folded_keys(
                    self.tag_list(),
                )[i] != lower_of(key@) by {
                    assert(folded@.map_values(|s: String| s@)[i] == folded@[i]@);
                }
                Err(TagError::NotFound { key: key.to_owned() })
            },
        }
    }
}

/// The answer of the parameter store to a request for one parameter.
#[derive(Debug)]
pub enum ParameterReply {
    /// The store answered; the parameter, if present, with its value, if present.
    Answer { parameter: Option<Option<String>> },
    /// The store has no parameter of that name.
    NotFound,
    /// The request failed for another reason.
    Failed { message: String },
}

/// Why a parameter could not be read.
#[derive(Debug)]
pub enum ParameterError {
    /// The store has no parameter of this name.
    NotFound { name: String },
    /// The request failed.
    Fetch { message: String },
    /// The answer holds no parameter.
    MissingParameter,
    /// The parameter has no value.
    NoValue,
}

impl ParameterError {
    /// A description of the failure for a diagnostic.
    pub fn message(&self) -> (r: String)
        ensures
            r@ == match self {
                ParameterError::NotFound { name } => "Parameter not found '"@ + name@ + "'"@,
                ParameterError::Fetch { message } => "Failed to fetch parameter: "@ + message@,
                ParameterError::MissingParameter => "Failed to get parameter"@,
                ParameterError::NoValue => "Parameter has no value"@,
            },
    {
        match self {
            ParameterError::NotFound { name } => {
                let mut m = "Parameter not found '".to_owned();
                m.append(name.as_str());
                m.append("'");
                m
            },
            ParameterError::Fetch { message } => {
                let mut m = "Failed to fetch parameter: ".to_owned();
                m.append(message.as_str());
                m
            },
            ParameterError::MissingParameter => "Failed to get parameter".to_owned(),
            ParameterError::NoValue => "Parameter has no value".to_owned(),
        }
    }
}

/// The value of parameter `name` from the parameter store's reply.
pub fn parameter_value(name: &str, reply: ParameterReply) -> (r: Result<String, ParameterError>)
    ensures
        match reply {
            ParameterReply::Answer { parameter: Some(Some(v)) } => r matches Ok(x) && x@ == v@,
            ParameterReply::Answer { parameter: Some(None) } => r matches Err(ParameterError::NoValue),
            ParameterReply::Answer { parameter: None } => r matches Err(
                ParameterError::MissingParameter,
            ),
            ParameterReply::NotFound => r matches Err(ParameterError::NotFound { name: n })
                && n@ == name@,
            ParameterReply::Failed { message } => r matches Err(ParameterError::Fetch { message: m })
                && m@ == message@,
        },
{
    match reply {
        ParameterReply::Answer { parameter } => match parameter {
            Some(value) => match value {
                Some(v) => Ok(v),
                None => Err(ParameterError::NoValue),
            },
            None => Err(ParameterError::MissingParameter),
        },
        ParameterReply::NotFound => Err(ParameterError::NotFound { name: name.to_owned() }),
        ParameterReply::Failed { message } => Err(ParameterError::Fetch { message }),
    }
}

} // verus!
