//! The strings that the engine reads from a bundle's property list.

use crate::app_inventory;
use crate::app_inventory::{
    AppInventoryMetadataReadMode, AppIssueCode, FieldView, PlistFormat, StringField, StringState,
};
use crate::probe::{AppError, AppFault};
use crate::text;
use vstd::prelude::*;
use vstd::string::*;

verus! {

/// The keys that are read.
#[derive(Clone, Copy, Debug, PartialEq, Eq, Structural)]
pub enum Slot {
    DisplayName,
    BundleName,
    BundleId,
    ShortVersion,
    BuildVersion,
    PackageType,
    ProductDir,
    Executable,
}

/// Which slot a key fills, if it is read at all.
pub open spec fn slot_of(key: Seq<char>, mode: AppInventoryMetadataReadMode) -> Option<Slot> {
    if key == "CFBundleDisplayName"@ {
        Some(Slot::DisplayName)
    } else if key == "CFBundleName"@ {
        Some(Slot::BundleName)
    } else if key == "CFBundleIdentifier"@ {
        Some(Slot::BundleId)
    } else if key == "CFBundleShortVersionString"@ {
        Some(Slot::ShortVersion)
    } else if key == "CFBundleVersion"@ {
        Some(Slot::BuildVersion)
    } else if key == "CFBundlePackageType"@ {
        Some(Slot::PackageType)
    } else if key == "CrProductDirName"@ && mode == AppInventoryMetadataReadMode::AppRelated {
        Some(Slot::ProductDir)
    } else if key == "CFBundleExecutable"@ {
        Some(Slot::Executable)
    } else {
        None
    }
}

/// Which slot a key fills, if it is read at all.
pub fn selected_key_index(key: &str, mode: AppInventoryMetadataReadMode) -> (slot: Option<Slot>)
    ensures
        slot == slot_of(key@, mode),
{
    if text::text_eq(key, "CFBundleDisplayName") {
        Some(Slot::DisplayName)
    } else if text::text_eq(key, "CFBundleName") {
        Some(Slot::BundleName)
    } else if text::text_eq(key, "CFBundleIdentifier") {
        Some(Slot::BundleId)
    } else if text::text_eq(key, "CFBundleShortVersionString") {
        Some(Slot::ShortVersion)
    } else if text::text_eq(key, "CFBundleVersion") {
        Some(Slot::BuildVersion)
    } else if text::text_eq(key, "CFBundlePackageType") {
        Some(Slot::PackageType)
    } else if text::text_eq(key, "CrProductDirName") && mode
        == AppInventoryMetadataReadMode::AppRelated {
        Some(Slot::ProductDir)
    } else if text::text_eq(key, "CFBundleExecutable") {
        Some(Slot::Executable)
    } else {
        None
    }
}

/// What was read from a property list.
#[derive(Debug)]
pub struct ParsedPlist {
    pub format: PlistFormat,
    pub display_name: StringField,
    pub bundle_name: StringField,
    pub bundle_id: StringField,
    pub short_version: StringField,
    pub build_version: StringField,
    pub package_type: StringField,
    pub cr_product_dir_name: StringField,
    pub executable: StringField,
}

/// What was read from a property list.
#[verifier::ext_equal]
pub struct ParsedView {
    pub format: PlistFormat,
    pub display_name: FieldView,
    pub bundle_name: FieldView,
    pub bundle_id: FieldView,
    pub short_version: FieldView,
    pub build_version: FieldView,
    pub package_type: FieldView,
    pub product_dir: FieldView,
    pub executable: FieldView,
}

impl View for ParsedPlist {
    type V = ParsedView;

    open spec fn view(&self) -> ParsedView {
        ParsedView {
            format: self.format,
            display_name: self.display_name@,
            bundle_name: self.bundle_name@,
            bundle_id: self.bundle_id@,
            short_version: self.short_version@,
            build_version: self.build_version@,
            package_type: self.package_type@,
            product_dir: self.cr_product_dir_name@,
            executable: self.executable@,
        }
    }
}

impl ParsedView {
    pub open spec fn field(self, slot: Slot) -> FieldView {
        match slot {
            Slot::DisplayName => self.display_name,
            Slot::BundleName => self.bundle_name,
            Slot::BundleId => self.bundle_id,
            Slot::ShortVersion => self.short_version,
            Slot::BuildVersion => self.build_version,
            Slot::PackageType => self.package_type,
            Slot::ProductDir => self.product_dir,
            Slot::Executable => self.executable,
        }
    }

    pub open spec fn with(self, slot: Slot, field: FieldView) -> ParsedView {
        match slot {
            Slot::DisplayName => ParsedView { display_name: field, ..self },
            Slot::BundleName => ParsedView { bundle_name: field, ..self },
            Slot::BundleId => ParsedView { bundle_id: field, ..self },
            Slot::ShortVersion => ParsedView { short_version: field, ..self },
            Slot::BuildVersion => ParsedView { build_version: field, ..self },
            Slot::PackageType => ParsedView { package_type: field, ..self },
            Slot::ProductDir => ParsedView { product_dir: field, ..self },
            Slot::Executable => ParsedView { executable: field, ..self },
        }
    }

    /// Whether the list has given this key already.
    pub open spec fn holds(self, slot: Slot) -> bool {
        self.field(slot).state != StringState::Missing
    }
}

/// A property list of which nothing has been read.
pub open spec fn nothing_read(format: PlistFormat) -> ParsedView {
    ParsedView {
        format,
        display_name: app_inventory::absent_field(),
        bundle_name: app_inventory::absent_field(),
        bundle_id: app_inventory::absent_field(),
        short_version: app_inventory::absent_field(),
        build_version: app_inventory::absent_field(),
        package_type: app_inventory::absent_field(),
        product_dir: app_inventory::absent_field(),
        executable: app_inventory::absent_field(),
    }
}

/// A property list of which nothing has been read.
pub fn missing_fields(format: PlistFormat) -> (parsed: ParsedPlist)
    ensures
        parsed@ == nothing_read(format),
{
    ParsedPlist {
        format,
        display_name: StringField::missing(),
        bundle_name: StringField::missing(),
        bundle_id: StringField::missing(),
        short_version: StringField::missing(),
        build_version: StringField::missing(),
        package_type: StringField::missing(),
        cr_product_dir_name: StringField::missing(),
        executable: StringField::missing(),
    }
}

impl ParsedPlist {
    /// Whether the list has given this key already.
    pub fn has(&self, slot: Slot) -> (held: bool)
        ensures
            held == self@.holds(slot),
    {
        let state: StringState = match slot {
            Slot::DisplayName => self.display_name.state,
            Slot::BundleName => self.bundle_name.state,
            Slot::BundleId => self.bundle_id.state,
            Slot::ShortVersion => self.short_version.state,
            Slot::BuildVersion => self.build_version.state,
            Slot::PackageType => self.package_type.state,
            Slot::ProductDir => self.cr_product_dir_name.state,
            Slot::Executable => self.executable.state,
        };
        state != StringState::Missing
    }

    /// Fills one slot.
    pub fn fill(&mut self, slot: Slot, field: StringField)
        ensures
            final(self)@ == old(self)@.with(slot, field@),
    {
        match slot {
            Slot::DisplayName => {
                self.display_name = field;
            },
            Slot::BundleName => {
                self.bundle_name = field;
            },
            Slot::BundleId => {
                self.bundle_id = field;
            },
            Slot::ShortVersion => {
                self.short_version = field;
            },
            Slot::BuildVersion => {
                self.build_version = field;
            },
            Slot::PackageType => {
                self.package_type = field;
            },
            Slot::ProductDir => {
                self.cr_product_dir_name = field;
            },
            Slot::Executable => {
                self.executable = field;
            },
        }
    }
}

/// A result over what it holds.
pub open spec fn parsed_result(result: Result<ParsedPlist, AppError>) -> Result<
    ParsedView,
    AppFault,
> {
    match result {
        Ok(parsed) => Ok(parsed@),
        Err(error) => Err(error@),
    }
}

pub open spec fn malformed(message: Seq<char>) -> AppFault {
    crate::probe::fault(AppIssueCode::MalformedPlist, message)
}

pub open spec fn over_limit(message: Seq<char>) -> AppFault {
    crate::probe::fault(AppIssueCode::PlistParseLimit, message)
}

pub fn malformed_error(message: &str) -> (error: AppError)
    ensures
        error@ == malformed(message@),
{
    AppError::new(AppIssueCode::MalformedPlist, message)
}

pub fn limit_error(message: &str) -> (error: AppError)
    ensures
        error@ == over_limit(message@),
{
    AppError::new(AppIssueCode::PlistParseLimit, message)
}

} // verus!
