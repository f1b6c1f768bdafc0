use vstd::prelude::*;

verus! {

/// One exercise as the remote source describes it; every field is plain text.
pub struct Bite {
    pub name: String,
    pub slug: String,
    pub description: String,
    pub level: String,
    pub template: String,
    pub libraries: String,
    pub author: String,
}

impl Bite {
    pub fn new(
        name: &str,
        slug: &str,
        description: &str,
        level: &str,
        template: &str,
        libraries: &str,
        author: &str,
    ) -> (r: Bite)
        ensures
            r.name@ == name@,
            r.slug@ == slug@,
            r.description@ == description@,
            r.level@ == level@,
            r.template@ == template@,
            r.libraries@ == libraries@,
            r.author@ == author@,
    {
        Bite {
            name: String::from_str(name),
            slug: String::from_str(slug),
            description: String::from_str(description),
            level: String::from_str(level),
            template: String::from_str(template),
            libraries: String::from_str(libraries),
            author: String::from_str(author),
        }
    }
}

} // verus!
