//! Source identities: the built-in sources and the open-ended custom one.
use vstd::prelude::*;

verus! {

/// Where the value of a placeholder comes from, as the proofs see it.
pub enum SourceId {
    AwsEc2Tag,
    AwsEc2Metadata,
    AwsSsm,
    Environment,
    Custom(Seq<char>),
}

/// The tag that selects each built-in source.
pub open spec fn builtin_tag(id: SourceId) -> Seq<char> {
    match id {
        SourceId::AwsEc2Tag => "awsec2tag"@,
        SourceId::AwsEc2Metadata => "awsec2metadata"@,
        SourceId::AwsSsm => "awsssm"@,
        SourceId::Environment => "env"@,
        SourceId::Custom(tag) => tag,
    }
}

/// The source that a placeholder tag selects: one of the built-in tags, or else a custom
/// source carrying the tag itself.
pub open spec fn source_of(tag: Seq<char>) -> SourceId {
    if tag == "awsec2tag"@ {
        SourceId::AwsEc2Tag
    } else if tag == "awsec2metadata"@ {
        SourceId::AwsEc2Metadata
    } else if tag == "awsssm"@ {
        SourceId::AwsSsm
    } else if tag == "env"@ {
        SourceId::Environment
    } else {
        SourceId::Custom(tag)
    }
}

/// A built-in source can be instantiated with its default loader; a custom one cannot.
pub open spec fn is_builtin(id: SourceId) -> bool {
    !(id is Custom)
}

/// The source of a placeholder: a closed set of built-in sources plus `Custom(tag)` for any
/// other tag.
#[derive(Clone, Debug)]
pub enum Source {
    AwsEc2Tag,
    AwsEc2Metadata,
    AwsSsm,
    Environment,
    Custom(String),
}

impl View for Source {
    type V = SourceId;

    open spec fn view(&self) -> SourceId {
        match self {
            Source::AwsEc2Tag => SourceId::AwsEc2Tag,
            Source::AwsEc2Metadata => SourceId::AwsEc2Metadata,
            Source::AwsSsm => SourceId::AwsSsm,
            Source::Environment => SourceId::Environment,
            Source::Custom(tag) => SourceId::Custom(tag@),
        }
    }
}

impl Source {
    /// Resolves a placeholder tag to its source. Never fails: an unknown tag is a custom source.
    pub fn from(key: &str) -> (r: Source)
        ensures
            r@ == source_of(key@),
    {
        let tag = key.to_owned();
        if tag == "awsec2tag".to_owned() {
            Source::AwsEc2Tag
        } else if tag == "awsec2metadata".to_owned() {
            Source::AwsEc2Metadata
        } else if tag == "awsssm".to_owned() {
            Source::AwsSsm
        } else if tag == "env".to_owned() {
            Source::Environment
        } else {
            Source::Custom(tag)
        }
    }

    /// Whether a default loader can be built for this source.
    pub fn is_builtin(&self) -> (r: bool)
        ensures
            r == is_builtin(self@),
    {
        match self {
            Source::Custom(_) => false,
            _ => true,
        }
    }

    /// Whether two sources are the same identity.
    pub fn same_as(&self, other: &Source) -> (r: bool)
        ensures
            r == (self@ == other@),
    {
        match self {
            Source::AwsEc2Tag => match other {
                Source::AwsEc2Tag => true,
                _ => false,
            },
            Source::AwsEc2Metadata => match other {
                Source::AwsEc2Metadata => true,
                _ => false,
            },
            Source::AwsSsm => match other {
                Source::AwsSsm => true,
                _ => false,
            },
            Source::Environment => match other {
                Source::Environment => true,
                _ => false,
            },
            Source::Custom(a) => match other {
                Source::Custom(b) => *a == *b,
                _ => false,
            },
        }
    }

    /// The tag that selects this source.
    pub fn tag(&self) -> (r: String)
        ensures
            r@ == builtin_tag(self@),
    {
        match self {
            Source::AwsEc2Tag => "awsec2tag".to_owned(),
            Source::AwsEc2Metadata => "awsec2metadata".to_owned(),
            Source::AwsSsm => "awsssm".to_owned(),
            Source::Environment => "env".to_owned(),
            Source::Custom(tag) => tag.clone(),
        }
    }

    /// An independent copy of this source.
    pub fn duplicate(&self) -> (r: Source)
        ensures
            r@ == self@,
    {
        match self {
            Source::AwsEc2Tag => Source::AwsEc2Tag,
            Source::AwsEc2Metadata => Source::AwsEc2Metadata,
            Source::AwsSsm => Source::AwsSsm,
            Source::Environment => Source::Environment,
            Source::Custom(tag) => Source::Custom(tag.clone()),
        }
    }
}

} // verus!
