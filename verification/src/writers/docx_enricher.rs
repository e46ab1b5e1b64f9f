use vstd::prelude::*;
use vstd::utf8::{encode_utf8};
use crate::coherence::graph::now_millis;
use crate::patchers::parts_view;
use crate::text::{
    chars_of, contains, contains_seq, decimal, find_at, first_at, join, join_strings, lines,
    lines_of, parse_u32, parse_u32_chars, push_str, push_range, str_eq, strings_view,
    slice_chars, u64_to_string, str_bytes, byte_cut, cut_bytes, lossy_text, utf8_lossy,
};

verus! {

// ---------------------------------------------------------------------------
// The parts a Word package is completed with
// ---------------------------------------------------------------------------

pub const THEME_PART: &'static str = "word/theme/theme1.xml";
pub const NUMBERING_PART: &'static str = "word/numbering.xml";
pub const FONT_TABLE_PART: &'static str = "word/fontTable.xml";
pub const SETTINGS_PART: &'static str = "word/settings.xml";
pub const FOOTER_PART: &'static str = "word/footer1.xml";
pub const HEADER_PART: &'static str = "word/header1.xml";
pub const CORE_PART: &'static str = "docProps/core.xml";
pub const APP_PART: &'static str = "docProps/app.xml";
pub const STYLES_PART: &'static str = "word/styles.xml";
pub const CONTENT_TYPES_PART: &'static str = "[Content_Types].xml";
pub const PACKAGE_RELS_PART: &'static str = "_rels/.rels";
pub const DOCUMENT_RELS_PART: &'static str = "word/_rels/document.xml.rels";

pub const CT_THEME: &'static str = "application/vnd.openxmlformats-officedocument.theme+xml";
pub const CT_NUMBERING: &'static str = "application/vnd.openxmlformats-officedocument.wordprocessingml.numbering+xml";
pub const CT_FONT_TABLE: &'static str = "application/vnd.openxmlformats-officedocument.wordprocessingml.fontTable+xml";
pub const CT_SETTINGS: &'static str = "application/vnd.openxmlformats-officedocument.wordprocessingml.settings+xml";
pub const CT_FOOTER: &'static str = "application/vnd.openxmlformats-officedocument.wordprocessingml.footer+xml";
pub const CT_HEADER: &'static str = "application/vnd.openxmlformats-officedocument.wordprocessingml.header+xml";
pub const CT_CORE: &'static str = "application/vnd.openxmlformats-package.core-properties+xml";
pub const CT_APP: &'static str = "application/vnd.openxmlformats-officedocument.extended-properties+xml";

pub const THEME_XML: &'static str = r#"<?xml version="1.0" encoding="UTF-8" standalone="yes"?>
<a:theme xmlns:a="http://schemas.openxmlformats.org/drawingml/2006/main" name="Office Theme">
  <a:themeElements>
    <a:clrScheme name="Office">
      <a:dk1><a:sysClr val="windowText" lastClr="000000"/></a:dk1>
      <a:lt1><a:sysClr val="window" lastClr="FFFFFF"/></a:lt1>
      <a:dk2><a:srgbClr val="1F497D"/></a:dk2>
      <a:lt2><a:srgbClr val="EEECE1"/></a:lt2>
      <a:accent1><a:srgbClr val="4F81BD"/></a:accent1>
      <a:accent2><a:srgbClr val="C0504D"/></a:accent2>
      <a:accent3><a:srgbClr val="9BBB59"/></a:accent3>
      <a:accent4><a:srgbClr val="8064A2"/></a:accent4>
      <a:accent5><a:srgbClr val="4BACC6"/></a:accent5>
      <a:accent6><a:srgbClr val="F79646"/></a:accent6>
      <a:hlink><a:srgbClr val="0000FF"/></a:hlink>
      <a:folHlink><a:srgbClr val="800080"/></a:folHlink>
    </a:clrScheme>
    <a:fontScheme name="Office">
      <a:majorFont>
        <a:latin typeface="Calibri Light"/>
        <a:ea typeface=""/>
        <a:cs typeface=""/>
      </a:majorFont>
      <a:minorFont>
        <a:latin typeface="Calibri"/>
        <a:ea typeface=""/>
        <a:cs typeface=""/>
      </a:minorFont>
    </a:fontScheme>
    <a:fmtScheme name="Office">
      <a:fillStyleLst>
        <a:solidFill><a:schemeClr val="phClr"/></a:solidFill>
        <a:gradFill rotWithShape="1">
          <a:gsLst>
            <a:gs pos="0"><a:schemeClr val="phClr"><a:tint val="50000"/><a:satMod val="300000"/></a:schemeClr></a:gs>
            <a:gs pos="35000"><a:schemeClr val="phClr"><a:tint val="37000"/><a:satMod val="300000"/></a:schemeClr></a:gs>
            <a:gs pos="100000"><a:schemeClr val="phClr"><a:tint val="15000"/><a:satMod val="350000"/></a:schemeClr></a:gs>
          </a:gsLst>
          <a:ln ang="5400000" scaled="0"/>
        </a:gradFill>
        <a:gradFill rotWithShape="1">
          <a:gsLst>
            <a:gs pos="0"><a:schemeClr val="phClr"><a:shade val="51000"/><a:satMod val="130000"/></a:schemeClr></a:gs>
            <a:gs pos="80000"><a:schemeClr val="phClr"><a:shade val="93000"/><a:satMod val="130000"/></a:schemeClr></a:gs>
            <a:gs pos="100000"><a:schemeClr val="phClr"><a:shade val="94000"/><a:satMod val="135000"/></a:schemeClr></a:gs>
          </a:gsLst>
          <a:ln ang="5400000" scaled="0"/>
        </a:gradFill>
      </a:fillStyleLst>
      <a:lnStyleLst>
        <a:ln w="9525" cap="flat" cmpd="sng" algn="ctr"><a:solidFill><a:schemeClr val="phClr"><a:shade val="95000"/><a:satMod val="100000"/></a:schemeClr></a:solidFill><a:prstDash val="solid"/></a:ln>
        <a:ln w="25400" cap="flat" cmpd="sng" algn="ctr"><a:solidFill><a:schemeClr val="phClr"/></a:solidFill><a:prstDash val="solid"/></a:ln>
        <a:ln w="38100" cap="flat" cmpd="sng" algn="ctr"><a:solidFill><a:schemeClr val="phClr"/></a:solidFill><a:prstDash val="solid"/></a:ln>
      </a:lnStyleLst>
      <a:effectStyleLst>
        <a:effectStyle><a:effectLst><a:outerShdw blurRad="40000" dist="20000" dir="5400000" rotWithShape="0"><a:srgbClr val="000000"><a:alpha val="38000"/></a:srgbClr></a:outerShdw></a:effectLst></a:effectStyle>
        <a:effectStyle><a:effectLst><a:outerShdw blurRad="40000" dist="23000" dir="5400000" rotWithShape="0"><a:srgbClr val="000000"><a:alpha val="35000"/></a:srgbClr></a:outerShdw></a:effectLst></a:effectStyle>
        <a:effectStyle><a:effectLst><a:outerShdw blurRad="40000" dist="23000" dir="5400000" rotWithShape="0"><a:srgbClr val="000000"><a:alpha val="35000"/></a:srgbClr></a:outerShdw></a:effectLst></a:effectStyle>
      </a:effectStyleLst>
      <a:bgFillStyleLst>
        <a:solidFill><a:schemeClr val="phClr"/></a:solidFill>
        <a:gradFill rotWithShape="1">
          <a:gsLst>
            <a:gs pos="0"><a:schemeClr val="phClr"><a:tint val="40000"/><a:satMod val="350000"/></a:schemeClr></a:gs>
            <a:gs pos="100000"><a:schemeClr val="phClr"><a:tint val="45000"/><a:satMod val="350000"/></a:schemeClr></a:gs>
          </a:gsLst>
          <a:ln ang="5400000" scaled="0"/>
        </a:gradFill>
      </a:bgFillStyleLst>
    </a:fmtScheme>
  </a:themeElements>
</a:theme>"#;

pub const NUMBERING_XML: &'static str = r#"<?xml version="1.0" encoding="UTF-8" standalone="yes"?>
<w:numbering xmlns:w="http://schemas.openxmlformats.org/wordprocessingml/2006/main"
             xmlns:wpc="http://schemas.microsoft.com/office/word/2010/wordprocessingCanvas"
             xmlns:mc="http://schemas.openxmlformats.org/markup-compatibility/2006"
             xmlns:r="http://schemas.openxmlformats.org/officeDocument/2006/relationships"
             xmlns:m="http://schemas.openxmlformats.org/officeDocument/2006/math"
             xmlns:v="urn:schemas-microsoft-com:vml"
             xmlns:wp14="http://schemas.microsoft.com/office/word/2010/wordprocessingDrawing"
             xmlns:wp="http://schemas.openxmlformats.org/drawingml/2006/wordprocessingDrawing"
             xmlns:w10="urn:schemas-microsoft-com:office:word"
             xmlns:w14="http://schemas.microsoft.com/office/word/2010/wordml"
             xmlns:wpg="http://schemas.microsoft.com/office/word/2010/wordprocessingGroup"
             xmlns:wpi="http://schemas.microsoft.com/office/word/2010/wordprocessingInk"
             xmlns:wne="http://schemas.microsoft.com/office/word/2006/wordml"
             xmlns:wps="http://schemas.microsoft.com/office/word/2010/wordprocessingShape"
             mc:Ignorable="w14 wp14">
  <w:abstractNum w:abstractNumId="0">
    <w:nsid w:val="AAAAAAAA"/>
    <w:multiLevelType w:val="hybridMultilevel"/>
    <w:tmpl w:val="AAAAAAAA"/>
    <w:lvl w:ilvl="0">
      <w:start w:val="1"/>
      <w:numFmt w:val="bullet"/>
      <w:lvlText w:val="▪"/>
      <w:lvlJc w:val="left"/>
      <w:pPr><w:ind w:left="720" w:hanging="360"/></w:pPr>
      <w:rPr><w:rFonts w:ascii="Symbol" w:hAnsi="Symbol" w:hint="default"/><w:sz w:val="24"/></w:rPr>
    </w:lvl>
    <w:lvl w:ilvl="1">
      <w:start w:val="1"/>
      <w:numFmt w:val="bullet"/>
      <w:lvlText w:val="●"/>
      <w:lvlJc w:val="left"/>
      <w:pPr><w:ind w:left="1440" w:hanging="360"/></w:pPr>
      <w:rPr><w:rFonts w:ascii="Courier New" w:hAnsi="Courier New" w:hint="default"/><w:sz w:val="24"/></w:rPr>
    </w:lvl>
  </w:abstractNum>
  <w:abstractNum w:abstractNumId="1">
    <w:nsid w:val="BBBBBBBB"/>
    <w:multiLevelType w:val="hybridMultilevel"/>
    <w:tmpl w:val="BBBBBBBB"/>
    <w:lvl w:ilvl="0">
      <w:start w:val="1"/>
      <w:numFmt w:val="decimal"/>
      <w:lvlText w:val="%1."/>
      <w:lvlJc w:val="left"/>
      <w:pPr><w:ind w:left="360" w:hanging="360"/></w:pPr>
      <w:rPr><w:sz w:val="24"/></w:rPr>
    </w:lvl>
    <w:lvl w:ilvl="1">
      <w:start w:val="1"/>
      <w:numFmt w:val="decimal"/>
      <w:lvlText w:val="%1.%2."/>
      <w:lvlJc w:val="left"/>
      <w:pPr><w:ind w:left="792" w:hanging="432"/></w:pPr>
      <w:rPr><w:sz w:val="24"/></w:rPr>
    </w:lvl>
    <w:lvl w:ilvl="2">
      <w:start w:val="1"/>
      <w:numFmt w:val="decimal"/>
      <w:lvlText w:val="%1.%2.%3."/>
      <w:lvlJc w:val="left"/>
      <w:pPr><w:ind w:left="1224" w:hanging="504"/></w:pPr>
      <w:rPr><w:sz w:val="24"/></w:rPr>
    </w:lvl>
  </w:abstractNum>
  <w:abstractNum w:abstractNumId="2">
    <w:nsid w:val="CCCCCCCC"/>
    <w:multiLevelType w:val="hybridMultilevel"/>
    <w:tmpl w:val="CCCCCCCC"/>
    <w:lvl w:ilvl="0">
      <w:start w:val="1"/>
      <w:numFmt w:val="decimal"/>
      <w:lvlText w:val="%1)"/>
      <w:lvlJc w:val="left"/>
      <w:pPr><w:ind w:left="360" w:hanging="360"/></w:pPr>
      <w:rPr><w:sz w:val="24"/></w:rPr>
    </w:lvl>
  </w:abstractNum>
  <w:num w:numId="1">
    <w:abstractNumId w:val="0"/>
  </w:num>
  <w:num w:numId="2">
    <w:abstractNumId w:val="1"/>
  </w:num>
  <w:num w:numId="3">
    <w:abstractNumId w:val="2"/>
  </w:num>
</w:numbering>"#;

pub const FONT_TABLE_XML: &'static str = r#"<?xml version="1.0" encoding="UTF-8" standalone="yes"?>
<w:fonts xmlns:mc="http://schemas.openxmlformats.org/markup-compatibility/2006"
         xmlns:r="http://schemas.openxmlformats.org/officeDocument/2006/relationships"
         xmlns:w="http://schemas.openxmlformats.org/wordprocessingml/2006/main"
         xmlns:w14="http://schemas.microsoft.com/office/word/2010/wordml"
         mc:Ignorable="w14">
  <w:font w:name="Calibri">
    <w:panose1 w:val="020F0502020204030204"/>
    <w:charset w:val="00"/>
    <w:family w:val="auto"/>
    <w:pitch w:val="variable"/>
    <w:sig w:usb0="E10002FF" w:usb1="4000ACFF" w:usb2="00000009" w:usb3="00000000" w:csb0="0000019F" w:csb1="00000000"/>
  </w:font>
  <w:font w:name="Calibri Light">
    <w:panose1 w:val="020F0302020204030204"/>
    <w:charset w:val="00"/>
    <w:family w:val="auto"/>
    <w:pitch w:val="variable"/>
    <w:sig w:usb0="A00002EF" w:usb1="4000207B" w:usb2="00000000" w:usb3="00000000" w:csb0="0000019F" w:csb1="00000000"/>
  </w:font>
  <w:font w:name="Times New Roman">
    <w:panose1 w:val="02020603050405020304"/>
    <w:charset w:val="00"/>
    <w:family w:val="auto"/>
    <w:pitch w:val="variable"/>
    <w:sig w:usb0="E0002AFF" w:usb1="C0007841" w:usb2="00000009" w:usb3="00000000" w:csb0="000001FF" w:csb1="00000000"/>
  </w:font>
  <w:font w:name="Arial">
    <w:panose1 w:val="020B0604020202020204"/>
    <w:charset w:val="00"/>
    <w:family w:val="auto"/>
    <w:pitch w:val="variable"/>
    <w:sig w:usb0="E0002AFF" w:usb1="C0007843" w:usb2="00000009" w:usb3="00000000" w:csb0="000001FF" w:csb1="00000000"/>
  </w:font>
  <w:font w:name="Symbol">
    <w:panose1 w:val="00000000000000000000"/>
    <w:charset w:val="02"/>
    <w:family w:val="auto"/>
    <w:pitch w:val="variable"/>
    <w:sig w:usb0="00000000" w:usb1="10000000" w:usb2="00000000" w:usb3="00000000" w:csb0="80000000" w:csb1="00000000"/>
  </w:font>
</w:fonts>"#;

pub const SETTINGS_XML: &'static str = r#"<?xml version="1.0" encoding="UTF-8" standalone="yes"?>
<w:settings xmlns:mc="http://schemas.openxmlformats.org/markup-compatibility/2006"
            xmlns:o="urn:schemas-microsoft-com:office:office"
            xmlns:r="http://schemas.openxmlformats.org/officeDocument/2006/relationships"
            xmlns:m="http://schemas.openxmlformats.org/officeDocument/2006/math"
            xmlns:v="urn:schemas-microsoft-com:vml"
            xmlns:w10="urn:schemas-microsoft-com:office:word"
            xmlns:w="http://schemas.openxmlformats.org/wordprocessingml/2006/main"
            xmlns:w14="http://schemas.microsoft.com/office/word/2010/wordml"
            xmlns:sl="http://schemas.openxmlformats.org/schemaLibrary/2006/main"
            mc:Ignorable="w14">
  <w:zoom w:percent="100"/>
  <w:defaultTabStop w:val="720"/>
  <w:characterSpacingControl w:val="doNotCompress"/>
  <w:footnotePr>
    <w:footnote w:id="-1"/>
    <w:footnote w:id="0"/>
  </w:footnotePr>
  <w:endnotePr>
    <w:endnote w:id="-1"/>
    <w:endnote w:id="0"/>
  </w:endnotePr>
  <w:compat>
    <w:useFELayout/>
    <w:compatSetting w:name="compatibilityMode" w:uri="http://schemas.microsoft.com/office/word" w:val="15"/>
    <w:compatSetting w:name="overrideTableStyleFontSizeAndJustification" w:uri="http://schemas.microsoft.com/office/word" w:val="1"/>
    <w:compatSetting w:name="enableOpenTypeFeatures" w:uri="http://schemas.microsoft.com/office/word" w:val="1"/>
    <w:compatSetting w:name="doNotFlipMirrorIndents" w:uri="http://schemas.microsoft.com/office/word" w:val="1"/>
  </w:compat>
</w:settings>"#;

pub const FOOTER_XML: &'static str = r#"<?xml version="1.0" encoding="UTF-8" standalone="yes"?>
<w:ftr xmlns:w="http://schemas.openxmlformats.org/wordprocessingml/2006/main"
       xmlns:r="http://schemas.openxmlformats.org/officeDocument/2006/relationships">
  <w:p>
    <w:pPr><w:jc w:val="center"/></w:pPr>
    <w:r><w:rPr><w:sz w:val="18"/><w:color w:val="808080"/></w:rPr><w:t>Page </w:t></w:r>
    <w:r><w:rPr><w:sz w:val="18"/><w:color w:val="808080"/></w:rPr>
      <w:fldChar w:fldCharType="begin"/>
    </w:r>
    <w:r><w:rPr><w:sz w:val="18"/><w:color w:val="808080"/></w:rPr>
      <w:instrText xml:space="preserve"> PAGE </w:instrText>
    </w:r>
    <w:r><w:rPr><w:sz w:val="18"/><w:color w:val="808080"/></w:rPr>
      <w:fldChar w:fldCharType="separate"/>
    </w:r>
    <w:r><w:rPr><w:sz w:val="18"/><w:color w:val="808080"/></w:rPr>
      <w:t>1</w:t>
    </w:r>
    <w:r><w:rPr><w:sz w:val="18"/><w:color w:val="808080"/></w:rPr>
      <w:fldChar w:fldCharType="end"/>
    </w:r>
  </w:p>
</w:ftr>"#;

pub const APP_XML: &'static str = r#"<?xml version="1.0" encoding="UTF-8" standalone="yes"?>
<Properties xmlns="http://schemas.openxmlformats.org/officeDocument/2006/extended-properties"
            xmlns:vt="http://schemas.openxmlformats.org/officeDocument/2006/docPropsVTypes">
  <Application>docworks-mcp</Application>
  <DocSecurity>0</DocSecurity>
  <Lines>1</Lines>
  <Paragraphs>1</Paragraphs>
  <ScaleCrop>false</ScaleCrop>
  <HeadingPairs/>
  <TitlesOfParts/>
  <Company>docworks-mcp</Company>
  <LinksUpToDate>false</LinksUpToDate>
  <CharactersWithSpaces>0</CharactersWithSpaces>
  <SharedDoc>false</SharedDoc>
  <HyperlinksChanged>false</HyperlinksChanged>
  <AppVersion>16.0000</AppVersion>
</Properties>"#;

pub const HEADER_OPEN: &'static str = r#"<?xml version="1.0" encoding="UTF-8" standalone="yes"?>
<w:hdr xmlns:w="http://schemas.openxmlformats.org/wordprocessingml/2006/main"
       xmlns:r="http://schemas.openxmlformats.org/officeDocument/2006/relationships">
  <w:p>
    <w:pPr><w:jc w:val="right"/></w:pPr>
    <w:r><w:rPr><w:sz w:val="16"/><w:color w:val="808080"/><w:i/></w:rPr><w:t>"#;

pub const HEADER_CLOSE: &'static str = r#"</w:t></w:r>
  </w:p>
</w:hdr>"#;

pub const CORE_1: &'static str = r#"<?xml version="1.0" encoding="UTF-8" standalone="yes"?>
<cp:coreProperties xmlns:cp="http://schemas.openxmlformats.org/package/2006/metadata/core-properties"
                   xmlns:dc="http://purl.org/dc/elements/1.1/"
                   xmlns:dcterms="http://purl.org/dc/terms/"
                   xmlns:dcmitype="http://purl.org/dc/dcmitype/"
                   xmlns:xsi="http://www.w3.org/2001/XMLSchema-instance">
  <dc:title>"#;

pub const CORE_2: &'static str = r#"</dc:title>
  <dc:creator>"#;

pub const CORE_3: &'static str = r#"</dc:creator>
  <cp:lastModifiedBy>docworks-mcp</cp:lastModifiedBy>
  <cp:revision>1</cp:revision>
  <dcterms:created xsi:type="dcterms:W3CDTF">"#;

pub const CORE_4: &'static str = r#"</dcterms:created>
  <dcterms:modified xsi:type="dcterms:W3CDTF">"#;

pub const CORE_5: &'static str = r#"</dcterms:modified>
</cp:coreProperties>"#;
/// The package relationships, as rebuilt: the main document, the core and
/// the extended properties.
pub const PACKAGE_RELS_XML: &'static str = r#"<?xml version="1.0" encoding="UTF-8" standalone="yes"?>
<Relationships xmlns="http://schemas.openxmlformats.org/package/2006/relationships"><Relationship Id="rId1" Type="http://schemas.openxmlformats.org/officeDocument/2006/relationships/officeDocument" Target="word/document.xml"/><Relationship Id="rId2" Type="http://schemas.openxmlformats.org/package/2006/relationships/metadata/core-properties" Target="docProps/core.xml"/><Relationship Id="rId3" Type="http://schemas.openxmlformats.org/officeDocument/2006/relationships/extended-properties" Target="docProps/app.xml"/></Relationships>"#;

pub const RELS_HEAD: &'static str = r#"<?xml version="1.0" encoding="UTF-8" standalone="yes"?>
<Relationships xmlns="http://schemas.openxmlformats.org/package/2006/relationships">"#;

pub const RELS_END: &'static str = "</Relationships>";

pub const CONTENT_TYPES_HEAD: &'static str = r#"<?xml version="1.0" encoding="UTF-8" standalone="yes"?>
<Types xmlns="http://schemas.openxmlformats.org/package/2006/content-types">
<Default Extension="xml" ContentType="application/xml"/>
<Default Extension="rels" ContentType="application/vnd.openxmlformats-package.relationships+xml"/>
"#;

pub const CONTENT_TYPES_END: &'static str = "\n</Types>";

pub const OVERRIDE_TAG: &'static str = "<Override";
pub const PART_NAME_ATTR: &'static str = "PartName=\"";
pub const CONTENT_TYPE_ATTR: &'static str = "ContentType=\"";
pub const OVERRIDE_OPEN: &'static str = "<Override PartName=\"";
pub const OVERRIDE_MID: &'static str = "\" ContentType=\"";
pub const ATTR_CLOSE: &'static str = "\"/>";
pub const ID_ATTR: &'static str = "Id=\"";
pub const REL_OPEN: &'static str = "<Relationship Id=\"";
pub const REL_TYPE: &'static str = "\" Type=\"";
pub const REL_TARGET: &'static str = "\" Target=\"";

pub const REL_STYLES: &'static str = "http://schemas.openxmlformats.org/officeDocument/2006/relationships/styles";
pub const REL_NUMBERING: &'static str = "http://schemas.openxmlformats.org/officeDocument/2006/relationships/numbering";
pub const REL_FONT_TABLE: &'static str = "http://schemas.openxmlformats.org/officeDocument/2006/relationships/fontTable";
pub const REL_SETTINGS: &'static str = "http://schemas.openxmlformats.org/officeDocument/2006/relationships/settings";
pub const REL_THEME: &'static str = "http://schemas.openxmlformats.org/officeDocument/2006/relationships/theme";
pub const REL_FOOTER: &'static str = "http://schemas.openxmlformats.org/officeDocument/2006/relationships/footer";
pub const REL_HEADER: &'static str = "http://schemas.openxmlformats.org/officeDocument/2006/relationships/header";

// ---------------------------------------------------------------------------
// Lossy decoding
// ---------------------------------------------------------------------------

// ---------------------------------------------------------------------------
// Parts by name
// ---------------------------------------------------------------------------

/// The index of the first part called `name`.
pub open spec fn first_named(es: Seq<(Seq<char>, Seq<u8>)>, name: Seq<char>) -> Option<int>
    decreases es.len(),
{
    if es.len() == 0 {
        None
    } else if es[0].0 == name {
        Some(0)
    } else {
        match first_named(es.drop_first(), name) {
            Some(i) => Some(i + 1),
            None => None,
        }
    }
}

pub open spec fn has_part(es: Seq<(Seq<char>, Seq<u8>)>, name: Seq<char>) -> bool {
    first_named(es, name) is Some
}

/// The text of the first part called `name`, decoded as `from_utf8_lossy`
/// does; empty when there is no such part.
pub open spec fn named_part_text(es: Seq<(Seq<char>, Seq<u8>)>, name: Seq<char>) -> Seq<char> {
    match first_named(es, name) {
        Some(i) => lossy_text(es[i].1),
        None => Seq::empty(),
    }
}

/// The first part called `name` given new data, or such a part appended.
pub open spec fn replaced_part(es: Seq<(Seq<char>, Seq<u8>)>, name: Seq<char>, data: Seq<u8>) -> Seq<(Seq<char>, Seq<u8>)> {
    match first_named(es, name) {
        Some(i) => es.update(i, (name, data)),
        None => es.push((name, data)),
    }
}

pub proof fn lemma_first_named(es: Seq<(Seq<char>, Seq<u8>)>, name: Seq<char>)
    ensures
        match first_named(es, name) {
            Some(i) => 0 <= i < es.len() && es[i].0 == name
                && forall|j: int| 0 <= j < i ==> es[j].0 != name,
            None => forall|j: int| 0 <= j < es.len() ==> es[j].0 != name,
        },
    decreases es.len(),
{
    if es.len() > 0 && es[0].0 != name {
        lemma_first_named(es.drop_first(), name);
        assert forall|j: int| 0 < j < es.len() implies es[j].0 == es.drop_first()[j - 1].0 by {}
    }
}

spec fn shifted(o: Option<int>, k: int) -> Option<int> {
    match o {
        Some(i) => Some(i + k),
        None => None,
    }
}

/// Index of the first entry called `name`.
fn position_of(entries: &Vec<(String, Vec<u8>)>, name: &str) -> (r: Option<usize>)
    ensures
        match r {
            Some(i) => first_named(parts_view(entries@), name@) == Some(i as int) && i < entries@.len(),
            None => first_named(parts_view(entries@), name@) is None,
        },
{
    let ghost es = parts_view(entries@);
    let mut i: usize = 0;
    proof {
        assert(es.skip(0) =~= es);
    }
    while i < entries.len()
        invariant
            i <= entries@.len(),
            es == parts_view(entries@),
            es.len() == entries@.len(),
            first_named(es, name@) == shifted(first_named(es.skip(i as int), name@), i as int),
        decreases entries@.len() - i,
    {
        let ghost rest = es.skip(i as int);
        proof {
            assert(rest[0] == es[i as int]);
            assert(rest.drop_first() =~= es.skip(i + 1));
        }
        if str_eq(entries[i].0.as_str(), name) {
            return Some(i);
        }
        i = i + 1;
    }
    proof {
        assert(es.skip(i as int).len() == 0);
    }
    None
}

/// Whether an entry is called `name`.
fn has_entry(entries: &Vec<(String, Vec<u8>)>, name: &str) -> (b: bool)
    ensures
        b == has_part(parts_view(entries@), name@),
{
    position_of(entries, name).is_some()
}

/// The text of the first entry called `name`, or nothing.
fn named_text(entries: &Vec<(String, Vec<u8>)>, name: &str) -> (r: Vec<char>)
    ensures
        r@ == named_part_text(parts_view(entries@), name@),
{
    match position_of(entries, name) {
        Some(i) => {
            let s = utf8_lossy(entries[i].1.as_slice());
            chars_of(s.as_str())
        },
        None => Vec::new(),
    }
}

/// Gives the first entry called `name` new data, or appends such an entry.
fn replace_entry(entries: &mut Vec<(String, Vec<u8>)>, name: &str, data: Vec<u8>)
    ensures
        parts_view(final(entries)@) == replaced_part(parts_view(old(entries)@), name@, data@),
{
    let ghost before = parts_view(entries@);
    let ghost d = data@;
    match position_of(entries, name) {
        Some(i) => {
            entries.set(i, (name.to_owned(), data));
            proof {
                assert(parts_view(entries@) =~= before.update(i as int, (name@, d)));
            }
        },
        None => {
            entries.push((name.to_owned(), data));
            proof {
                assert(parts_view(entries@) =~= before.push((name@, d)));
            }
        },
    }
}


// ---------------------------------------------------------------------------
// What is added
// ---------------------------------------------------------------------------

pub open spec fn opt_part(c: bool, name: Seq<char>, text: Seq<char>) -> Seq<(Seq<char>, Seq<u8>)> {
    if c {
        seq![(name, encode_utf8(text))]
    } else {
        Seq::empty()
    }
}

pub open spec fn opt_pair(c: bool, a: Seq<char>, b: Seq<char>) -> Seq<(Seq<char>, Seq<char>)> {
    if c {
        seq![(a, b)]
    } else {
        Seq::empty()
    }
}

pub open spec fn pairs_view(v: Seq<(String, String)>) -> Seq<(Seq<char>, Seq<char>)> {
    v.map_values(|p: (String, String)| (p.0@, p.1@))
}

/// The header part: the title, right-aligned in small grey italics.
pub open spec fn header_xml(title: Seq<char>) -> Seq<char> {
    HEADER_OPEN@ + title + HEADER_CLOSE@
}

/// The core properties: title, author and the two timestamps.
pub open spec fn core_xml(title: Seq<char>, author: Seq<char>, created: Seq<char>, modified: Seq<char>) -> Seq<char> {
    CORE_1@ + title + CORE_2@ + author + CORE_3@ + created + CORE_4@ + modified + CORE_5@
}

/// The package with the parts it lacks appended, in this order: theme,
/// numbering, font table, settings, footer (when page numbers are asked
/// for), header (when a header is asked for), core and extended properties.
pub open spec fn completed_parts(
    es: Seq<(Seq<char>, Seq<u8>)>,
    title: Seq<char>,
    author: Seq<char>,
    page_numbers: bool,
    header: bool,
    created: Seq<char>,
    modified: Seq<char>,
) -> Seq<(Seq<char>, Seq<u8>)> {
    es
        + opt_part(!has_part(es, THEME_PART@), THEME_PART@, THEME_XML@)
        + opt_part(!has_part(es, NUMBERING_PART@), NUMBERING_PART@, NUMBERING_XML@)
        + opt_part(!has_part(es, FONT_TABLE_PART@), FONT_TABLE_PART@, FONT_TABLE_XML@)
        + opt_part(!has_part(es, SETTINGS_PART@), SETTINGS_PART@, SETTINGS_XML@)
        + opt_part(page_numbers && !has_part(es, FOOTER_PART@), FOOTER_PART@, FOOTER_XML@)
        + opt_part(header && !has_part(es, HEADER_PART@), HEADER_PART@, header_xml(title))
        + opt_part(!has_part(es, CORE_PART@), CORE_PART@, core_xml(title, author, created, modified))
        + opt_part(!has_part(es, APP_PART@), APP_PART@, APP_XML@)
}

/// The content-type overrides of the appended parts, in the same order.
pub open spec fn new_overrides(es: Seq<(Seq<char>, Seq<u8>)>, page_numbers: bool, header: bool) -> Seq<(Seq<char>, Seq<char>)> {
    opt_pair(!has_part(es, THEME_PART@), "/word/theme/theme1.xml"@, CT_THEME@)
        + opt_pair(!has_part(es, NUMBERING_PART@), "/word/numbering.xml"@, CT_NUMBERING@)
        + opt_pair(!has_part(es, FONT_TABLE_PART@), "/word/fontTable.xml"@, CT_FONT_TABLE@)
        + opt_pair(!has_part(es, SETTINGS_PART@), "/word/settings.xml"@, CT_SETTINGS@)
        + opt_pair(page_numbers && !has_part(es, FOOTER_PART@), "/word/footer1.xml"@, CT_FOOTER@)
        + opt_pair(header && !has_part(es, HEADER_PART@), "/word/header1.xml"@, CT_HEADER@)
        + opt_pair(!has_part(es, CORE_PART@), "/docProps/core.xml"@, CT_CORE@)
        + opt_pair(!has_part(es, APP_PART@), "/docProps/app.xml"@, CT_APP@)
}

/// The relationships the main document gains: one per appended theme,
/// numbering, font table or settings part, and the footer and header
/// whenever they are asked for (whether or not their parts were there).
pub open spec fn new_document_rels(es: Seq<(Seq<char>, Seq<u8>)>, page_numbers: bool, header: bool) -> Seq<(Seq<char>, Seq<char>)> {
    opt_pair(!has_part(es, THEME_PART@), "theme"@, "theme/theme1.xml"@)
        + opt_pair(!has_part(es, NUMBERING_PART@), "numbering"@, "numbering.xml"@)
        + opt_pair(!has_part(es, FONT_TABLE_PART@), "fontTable"@, "fontTable.xml"@)
        + opt_pair(!has_part(es, SETTINGS_PART@), "settings"@, "settings.xml"@)
        + opt_pair(page_numbers, "footer"@, "footer1.xml"@)
        + opt_pair(header, "header"@, "header1.xml"@)
}

/// The styles part, when there is one, replaced by the full style sheet.
pub open spec fn with_styles(es: Seq<(Seq<char>, Seq<u8>)>, styles: Seq<u8>) -> Seq<(Seq<char>, Seq<u8>)> {
    match first_named(es, STYLES_PART@) {
        Some(i) => es.update(i, (es[i].0, styles)),
        None => es,
    }
}

fn push_part(entries: &mut Vec<(String, Vec<u8>)>, c: bool, name: &str, text: &str)
    ensures
        parts_view(final(entries)@) == parts_view(old(entries)@) + opt_part(c, name@, text@),
{
    let ghost before = parts_view(entries@);
    if c {
        entries.push((name.to_owned(), str_bytes(text)));
        proof {
            assert(parts_view(entries@) =~= before + opt_part(c, name@, text@));
        }
    } else {
        assert(parts_view(entries@) =~= before + opt_part(c, name@, text@));
    }
}

fn push_pair(v: &mut Vec<(String, String)>, c: bool, a: &str, b: &str)
    ensures
        pairs_view(final(v)@) == pairs_view(old(v)@) + opt_pair(c, a@, b@),
{
    let ghost before = pairs_view(v@);
    if c {
        v.push((a.to_owned(), b.to_owned()));
        proof {
            assert(pairs_view(v@) =~= before + opt_pair(c, a@, b@));
        }
    } else {
        assert(pairs_view(v@) =~= before + opt_pair(c, a@, b@));
    }
}

// ---------------------------------------------------------------------------
// Content types
// ---------------------------------------------------------------------------

/// Whether the content types list a part: `PartName="<part>"` occurs in them.
pub open spec fn content_type_listed(text: Seq<char>, part: Seq<char>) -> bool {
    contains_seq(text, PART_NAME_ATTR@ + part + seq!['"'])
}

/// Whether some new override names a part the content types do not list.
pub open spec fn any_unlisted(text: Seq<char>, ov: Seq<(Seq<char>, Seq<char>)>) -> bool {
    exists|k: int| 0 <= k < ov.len() && !content_type_listed(text, #[trigger] ov[k].0)
}

pub open spec fn override_xml(pn: Seq<char>, ct: Seq<char>) -> Seq<char> {
    OVERRIDE_OPEN@ + pn + OVERRIDE_MID@ + ct + ATTR_CLOSE@
}

/// The value paired with the first occurrence of `key`.
pub open spec fn lookup(ps: Seq<(Seq<char>, Seq<char>)>, key: Seq<char>) -> Option<Seq<char>>
    decreases ps.len(),
{
    if ps.len() == 0 {
        None
    } else if ps[0].0 == key {
        Some(ps[0].1)
    } else {
        lookup(ps.drop_first(), key)
    }
}

/// What a line of the old content types contributes: an `<Override` line
/// with a part name keeps that name, with the new content type when the part
/// has a new override and with its own content type otherwise; other lines,
/// and lines whose attributes do not close, contribute nothing.
pub open spec fn override_of_line(line: Seq<char>, new: Seq<(Seq<char>, Seq<char>)>) -> Option<Seq<char>> {
    if !contains_seq(line, OVERRIDE_TAG@) {
        None
    } else {
        match first_at(line, PART_NAME_ATTR@, 0) {
            None => None,
            Some(s) => {
                let from = s + PART_NAME_ATTR@.len();
                match first_at(line, seq!['"'], from) {
                    None => None,
                    Some(e) => {
                        let pn = line.subrange(from, e);
                        match lookup(new, pn) {
                            Some(c) => Some(override_xml(pn, c)),
                            None => match first_at(line, CONTENT_TYPE_ATTR@, e + 1) {
                                None => None,
                                Some(cs) => {
                                    let a = cs + CONTENT_TYPE_ATTR@.len();
                                    match first_at(line, seq!['"'], a) {
                                        None => None,
                                        Some(ce) => Some(override_xml(pn, line.subrange(a, ce))),
                                    }
                                },
                            },
                        }
                    },
                }
            },
        }
    }
}

pub open spec fn kept_overrides(ls: Seq<Seq<char>>, new: Seq<(Seq<char>, Seq<char>)>) -> Seq<Seq<char>>
    decreases ls.len(),
{
    if ls.len() == 0 {
        Seq::empty()
    } else {
        let r = kept_overrides(ls.drop_last(), new);
        match override_of_line(ls.last(), new) {
            Some(o) => r.push(o),
            None => r,
        }
    }
}

/// Whether some override already mentions `pn`.
pub open spec fn mentioned(acc: Seq<Seq<char>>, pn: Seq<char>) -> bool {
    exists|k: int| 0 <= k < acc.len() && contains_seq(#[trigger] acc[k], pn)
}

/// The overrides with each new one appended unless one already mentions its part.
pub open spec fn with_new_overrides(acc: Seq<Seq<char>>, new: Seq<(Seq<char>, Seq<char>)>) -> Seq<Seq<char>>
    decreases new.len(),
{
    if new.len() == 0 {
        acc
    } else {
        let a = with_new_overrides(acc, new.drop_last());
        if mentioned(a, new.last().0) {
            a
        } else {
            a.push(override_xml(new.last().0, new.last().1))
        }
    }
}

/// The rebuilt content types: the two defaults, then the kept and the new
/// overrides, one per line.
pub open spec fn content_types_xml(text: Seq<char>, new: Seq<(Seq<char>, Seq<char>)>) -> Seq<char> {
    CONTENT_TYPES_HEAD@ + join(with_new_overrides(kept_overrides(lines(text), new), new), "\n"@)
        + CONTENT_TYPES_END@
}

fn existing_content_type(text: &Vec<char>, part: &str) -> (b: bool)
    ensures
        b == content_type_listed(text@, part@),
{
    let mut pat = chars_of(PART_NAME_ATTR);
    let p = chars_of(part);
    let ghost pat0 = pat@;
    let mut i: usize = 0;
    while i < p.len()
        invariant
            i <= p@.len(),
            pat@ == pat0 + p@.subrange(0, i as int),
        decreases p@.len() - i,
    {
        pat.push(p[i]);
        i = i + 1;
        assert(pat@ =~= pat0 + p@.subrange(0, i as int));
    }
    pat.push('"');
    assert(pat@ =~= PART_NAME_ATTR@ + part@ + seq!['"']);
    contains(text, &pat)
}

fn unlisted_any(text: &Vec<char>, ov: &Vec<(String, String)>) -> (b: bool)
    ensures
        b == any_unlisted(text@, pairs_view(ov@)),
{
    let ghost v = pairs_view(ov@);
    let mut k: usize = 0;
    while k < ov.len()
        invariant
            k <= ov@.len(),
            v == pairs_view(ov@),
            forall|j: int| 0 <= j < k ==> content_type_listed(text@, #[trigger] v[j].0),
        decreases ov@.len() - k,
    {
        if !existing_content_type(text, ov[k].0.as_str()) {
            assert(!content_type_listed(text@, v[k as int].0));
            return true;
        }
        k = k + 1;
    }
    false
}

fn lookup_pair(ps: &Vec<(String, String)>, key: &Vec<char>) -> (r: Option<String>)
    ensures
        match r {
            Some(c) => lookup(pairs_view(ps@), key@) == Some(c@),
            None => lookup(pairs_view(ps@), key@) is None,
        },
{
    let ghost v = pairs_view(ps@);
    let mut i: usize = 0;
    proof {
        assert(v.skip(0) =~= v);
    }
    while i < ps.len()
        invariant
            i <= ps@.len(),
            v == pairs_view(ps@),
            v.len() == ps@.len(),
            lookup(v, key@) == lookup(v.skip(i as int), key@),
        decreases ps@.len() - i,
    {
        proof {
            assert(v.skip(i as int)[0] == v[i as int]);
            assert(v.skip(i as int).drop_first() =~= v.skip(i + 1));
        }
        let name = chars_of(ps[i].0.as_str());
        if crate::text::seq_eq(&name, key) {
            return Some(ps[i].1.clone());
        }
        i = i + 1;
    }
    None
}

fn override_string(pn: &Vec<char>, ct: &Vec<char>) -> (r: String)
    ensures
        r@ == override_xml(pn@, ct@),
{
    let mut r = String::new();
    push_str(&mut r, OVERRIDE_OPEN);
    push_range(&mut r, pn, 0, pn.len());
    push_str(&mut r, OVERRIDE_MID);
    push_range(&mut r, ct, 0, ct.len());
    push_str(&mut r, ATTR_CLOSE);
    proof {
        assert(pn@.subrange(0, pn@.len() as int) =~= pn@);
        assert(ct@.subrange(0, ct@.len() as int) =~= ct@);
    }
    r
}

fn override_of(line: &Vec<char>, new: &Vec<(String, String)>) -> (r: Option<String>)
    ensures
        match r {
            Some(o) => override_of_line(line@, pairs_view(new@)) == Some(o@),
            None => override_of_line(line@, pairs_view(new@)) is None,
        },
{
    let tag = chars_of(OVERRIDE_TAG);
    if !contains(line, &tag) {
        return None;
    }
    let pa = chars_of(PART_NAME_ATTR);
    let quote = vec!['"'];
    assert(quote@ =~= seq!['"']);
    match find_at(line, &pa, 0) {
        None => None,
        Some(s) => {
            let from = s + pa.len();
            match find_at(line, &quote, from) {
                None => None,
                Some(e) => {
                    let pn = slice_chars(line, from, e);
                    match lookup_pair(new, &pn) {
                        Some(c) => {
                            let cv = chars_of(c.as_str());
                            let o = override_string(&pn, &cv);
                            assert(override_of_line(line@, pairs_view(new@)) == Some(o@));
                            Some(o)
                        },
                        None => {
                            let ca = chars_of(CONTENT_TYPE_ATTR);
                            match find_at(line, &ca, e + 1) {
                                None => None,
                                Some(cs) => {
                                    let a = cs + ca.len();
                                    match find_at(line, &quote, a) {
                                        None => None,
                                        Some(ce) => {
                                            let ct = slice_chars(line, a, ce);
                                            let o = override_string(&pn, &ct);
                                            assert(override_of_line(line@, pairs_view(new@)) == Some(o@));
                                            Some(o)
                                        },
                                    }
                                },
                            }
                        },
                    }
                },
            }
        },
    }
}

fn mentioned_in(acc: &Vec<String>, pn: &Vec<char>) -> (b: bool)
    ensures
        b == mentioned(strings_view(acc@), pn@),
{
    let ghost v = strings_view(acc@);
    let mut k: usize = 0;
    while k < acc.len()
        invariant
            k <= acc@.len(),
            v == strings_view(acc@),
            forall|j: int| 0 <= j < k ==> !contains_seq(#[trigger] v[j], pn@),
        decreases acc@.len() - k,
    {
        let o = chars_of(acc[k].as_str());
        if contains(&o, pn) {
            assert(contains_seq(v[k as int], pn@));
            return true;
        }
        k = k + 1;
    }
    false
}

/// Rebuilds the content types from the old ones and the new overrides.
fn rebuild_content_types(text: &Vec<char>, new: &Vec<(String, String)>) -> (r: String)
    ensures
        r@ == content_types_xml(text@, pairs_view(new@)),
{
    let ghost nv = pairs_view(new@);
    let ls = lines_of(text);
    let ghost lv = lines(text@);
    let mut out: Vec<String> = Vec::new();
    let mut i: usize = 0;
    proof {
        assert(lv.take(0) =~= Seq::<Seq<char>>::empty());
        assert(strings_view(out@) =~= Seq::<Seq<char>>::empty());
    }
    while i < ls.len()
        invariant
            i <= ls@.len(),
            ls@.map_values(|l: Vec<char>| l@) == lv,
            nv == pairs_view(new@),
            strings_view(out@) == kept_overrides(lv.take(i as int), nv),
        decreases ls@.len() - i,
    {
        let ghost before = strings_view(out@);
        proof {
            assert(lv.take(i + 1).drop_last() =~= lv.take(i as int));
            assert(lv.take(i + 1).last() == ls@[i as int]@);
        }
        match override_of(&ls[i], new) {
            Some(o) => {
                out.push(o);
                proof {
                    assert(strings_view(out@) =~= before.push(o@));
                }
            },
            None => {},
        }
        i = i + 1;
    }
    proof {
        assert(lv.take(ls@.len() as int) =~= lv);
    }
    let ghost kept = strings_view(out@);
    let mut k: usize = 0;
    proof {
        assert(nv.take(0) =~= Seq::<(Seq<char>, Seq<char>)>::empty());
    }
    while k < new.len()
        invariant
            k <= new@.len(),
            nv == pairs_view(new@),
            strings_view(out@) == with_new_overrides(kept, nv.take(k as int)),
        decreases new@.len() - k,
    {
        let ghost before = strings_view(out@);
        proof {
            assert(nv.take(k + 1).drop_last() =~= nv.take(k as int));
            assert(nv.take(k + 1).last() == nv[k as int]);
        }
        let pn = chars_of(new[k].0.as_str());
        if !mentioned_in(&out, &pn) {
            let cv = chars_of(new[k].1.as_str());
            let o = override_string(&pn, &cv);
            out.push(o);
            proof {
                assert(strings_view(out@) =~= before.push(o@));
            }
        }
        k = k + 1;
    }
    proof {
        assert(nv.take(new@.len() as int) =~= nv);
    }
    let mut r = String::new();
    push_str(&mut r, CONTENT_TYPES_HEAD);
    let j = join_strings(&out, "\n");
    push_str(&mut r, j.as_str());
    push_str(&mut r, CONTENT_TYPES_END);
    r
}

// ---------------------------------------------------------------------------
// Document relationships
// ---------------------------------------------------------------------------

/// Whether an old relationship line is carried over: it holds a
/// `<Relationship` and names none of the parts whose relationships are
/// written anew.
pub open spec fn rel_line_kept(line: Seq<char>) -> bool {
    &&& contains_seq(line, "<Relationship"@)
    &&& !contains_seq(line, "numbering"@)
    &&& !contains_seq(line, "fontTable"@)
    &&& !contains_seq(line, "theme"@)
    &&& !contains_seq(line, "settings"@)
    &&& !contains_seq(line, "header"@)
    &&& !contains_seq(line, "footer"@)
}

/// The value of the first `Id="…"` attribute of a line.
pub open spec fn rel_line_id(line: Seq<char>) -> Option<Seq<char>> {
    match first_at(line, ID_ATTR@, 0) {
        None => None,
        Some(s) => {
            let from = s + ID_ATTR@.len();
            match first_at(line, seq!['"'], from) {
                None => None,
                Some(e) => Some(line.subrange(from, e)),
            }
        },
    }
}

/// The number an id carries after its first three bytes (`rId7` gives 7),
/// 0 when they are not a number.
pub open spec fn id_number(id: Seq<char>, k: int) -> nat {
    match parse_u32(id.skip(k)) {
        Some(v) => v,
        None => 0,
    }
}

/// Whether a carried-over line has an id whose first three bytes end on a
/// character boundary (a line whose id does not is one the rebuilding cannot
/// cut).
pub open spec fn rel_line_ok(line: Seq<char>) -> bool {
    rel_line_kept(line) ==> match rel_line_id(line) {
        Some(id) => byte_cut(id, 3) is Some,
        None => true,
    }
}

/// The carried-over lines, each followed by a line feed, and the largest id
/// number among them (at least 3).
pub open spec fn kept_rels(ls: Seq<Seq<char>>) -> (Seq<char>, nat)
    decreases ls.len(),
{
    if ls.len() == 0 {
        (Seq::empty(), 3)
    } else {
        let prev = kept_rels(ls.drop_last());
        let l = ls.last();
        if !rel_line_kept(l) {
            prev
        } else {
            let m = match rel_line_id(l) {
                Some(id) => match byte_cut(id, 3) {
                    Some(k) => if id_number(id, k) > prev.1 { id_number(id, k) } else { prev.1 },
                    None => prev.1,
                },
                None => prev.1,
            };
            (prev.0 + l + seq!['\n'], m)
        }
    }
}

/// The relationship type of a part kind.
pub open spec fn rel_type(name: Seq<char>) -> Seq<char> {
    if name == "styles"@ {
        REL_STYLES@
    } else if name == "numbering"@ {
        REL_NUMBERING@
    } else if name == "fontTable"@ {
        REL_FONT_TABLE@
    } else if name == "settings"@ {
        REL_SETTINGS@
    } else if name == "theme"@ {
        REL_THEME@
    } else if name == "footer"@ {
        REL_FOOTER@
    } else if name == "header"@ {
        REL_HEADER@
    } else {
        Seq::empty()
    }
}

pub open spec fn is_fixed_rel(name: Seq<char>) -> bool {
    name == "header"@ || name == "footer"@
}

/// How many of the relationships take a numbered id.
pub open spec fn counted_rels(rels: Seq<(Seq<char>, Seq<char>)>) -> nat
    decreases rels.len(),
{
    if rels.len() == 0 {
        0
    } else {
        counted_rels(rels.drop_last()) + if is_fixed_rel(rels.last().0) { 0nat } else { 1nat }
    }
}

/// The id of a new relationship: the header and footer keep `rId1` and
/// `rId2`, which the document's section properties point at; the others are
/// numbered.
pub open spec fn rel_id(name: Seq<char>, n: nat) -> Seq<char> {
    if name == "header"@ {
        "rId1"@
    } else if name == "footer"@ {
        "rId2"@
    } else {
        "rId"@ + decimal(n)
    }
}

pub open spec fn relationship_xml(id: Seq<char>, ty: Seq<char>, target: Seq<char>) -> Seq<char> {
    REL_OPEN@ + id + REL_TYPE@ + ty + REL_TARGET@ + target + ATTR_CLOSE@
}

/// The new relationships, numbered on from `first`.
pub open spec fn new_rels_xml(rels: Seq<(Seq<char>, Seq<char>)>, first: nat) -> Seq<char>
    decreases rels.len(),
{
    if rels.len() == 0 {
        Seq::empty()
    } else {
        new_rels_xml(rels.drop_last(), first) + relationship_xml(
            rel_id(rels.last().0, first + counted_rels(rels.drop_last())),
            rel_type(rels.last().0),
            rels.last().1,
        )
    }
}

/// The rebuilt relationships of the main document: the carried-over lines,
/// then the new relationships, numbered on from one past the largest id.
pub open spec fn document_rels_xml(text: Seq<char>, rels: Seq<(Seq<char>, Seq<char>)>) -> Seq<char> {
    RELS_HEAD@ + kept_rels(lines(text)).0 + new_rels_xml(rels, kept_rels(lines(text)).1 + 1) + RELS_END@
}

/// When the relationships can be rebuilt: every carried-over id can be cut
/// after three bytes, and the numbering stays within 32 bits.
pub open spec fn document_rels_ok(text: Seq<char>, rels: Seq<(Seq<char>, Seq<char>)>) -> bool {
    &&& forall|i: int| 0 <= i < lines(text).len() ==> rel_line_ok(#[trigger] lines(text)[i])
    &&& kept_rels(lines(text)).1 + 1 + counted_rels(rels) <= u32::MAX
}

fn has_lit(line: &Vec<char>, lit: &str) -> (b: bool)
    ensures
        b == contains_seq(line@, lit@),
{
    let p = chars_of(lit);
    contains(line, &p)
}

/// Whether the package relationships mention a relationship type.
fn existing_relationship(rels_text: &Vec<char>, rel_type: &str) -> (b: bool)
    ensures
        b == contains_seq(rels_text@, rel_type@),
{
    has_lit(rels_text, rel_type)
}

fn kept_line(line: &Vec<char>) -> (b: bool)
    ensures
        b == rel_line_kept(line@),
{
    has_lit(line, "<Relationship") && !has_lit(line, "numbering") && !has_lit(line, "fontTable")
        && !has_lit(line, "theme") && !has_lit(line, "settings") && !has_lit(line, "header")
        && !has_lit(line, "footer")
}

fn id_of_line(line: &Vec<char>) -> (r: Option<Vec<char>>)
    ensures
        match r {
            Some(id) => rel_line_id(line@) == Some(id@),
            None => rel_line_id(line@) is None,
        },
{
    let ia = chars_of(ID_ATTR);
    let quote = vec!['"'];
    assert(quote@ =~= seq!['"']);
    match find_at(line, &ia, 0) {
        None => None,
        Some(s) => {
            let from = s + ia.len();
            match find_at(line, &quote, from) {
                None => None,
                Some(e) => Some(slice_chars(line, from, e)),
            }
        },
    }
}

fn rel_type_of(name: &str) -> (r: &'static str)
    ensures
        r@ == rel_type(name@),
{
    if str_eq(name, "styles") {
        REL_STYLES
    } else if str_eq(name, "numbering") {
        REL_NUMBERING
    } else if str_eq(name, "fontTable") {
        REL_FONT_TABLE
    } else if str_eq(name, "settings") {
        REL_SETTINGS
    } else if str_eq(name, "theme") {
        REL_THEME
    } else if str_eq(name, "footer") {
        REL_FOOTER
    } else if str_eq(name, "header") {
        REL_HEADER
    } else {
        proof {
            reveal_strlit("");
        }
        ""
    }
}

/// Rebuilds the relationships of the main document.
fn rebuild_document_rels(text: &Vec<char>, rels: &Vec<(String, String)>) -> (r: String)
    requires
        document_rels_ok(text@, pairs_view(rels@)),
    ensures
        r@ == document_rels_xml(text@, pairs_view(rels@)),
{
    let ghost rv = pairs_view(rels@);
    let ls = lines_of(text);
    let ghost lv = lines(text@);
    let mut out = String::new();
    push_str(&mut out, RELS_HEAD);
    let mut counter: u32 = 3;
    let mut i: usize = 0;
    proof {
        assert(lv.take(0) =~= Seq::<Seq<char>>::empty());
    }
    while i < ls.len()
        invariant
            i <= ls@.len(),
            ls@.map_values(|l: Vec<char>| l@) == lv,
            forall|j: int| 0 <= j < lv.len() ==> rel_line_ok(#[trigger] lv[j]),
            out@ == RELS_HEAD@ + kept_rels(lv.take(i as int)).0,
            counter as nat == kept_rels(lv.take(i as int)).1,
        decreases ls@.len() - i,
    {
        let ghost before = out@;
        proof {
            assert(lv.take(i + 1).drop_last() =~= lv.take(i as int));
            assert(lv.take(i + 1).last() == ls@[i as int]@);
            assert(rel_line_ok(lv[i as int]));
        }
        let line = &ls[i];
        if kept_line(line) {
            match id_of_line(line) {
                Some(id) => {
                    match cut_bytes(&id, 3) {
                        Some(k) => {
                            let rest = slice_chars(&id, k, id.len());
                            proof {
                                assert(rest@ =~= id@.skip(k as int));
                            }
                            let num: u32 = match parse_u32_chars(&rest) {
                                Some(v) => v,
                                None => 0,
                            };
                            if num > counter {
                                counter = num;
                            }
                        },
                        None => {},
                    }
                },
                None => {},
            }
            push_range(&mut out, line, 0, line.len());
            out.push('\n');
            proof {
                assert(line@.subrange(0, line@.len() as int) =~= line@);
                assert(out@ =~= before + line@ + seq!['\n']);
            }
        }
        i = i + 1;
    }
    proof {
        assert(lv.take(ls@.len() as int) =~= lv);
    }
    let ghost first: nat = (counter + 1) as nat;
    counter = counter + 1;
    let ghost kept_text = out@;
    let mut k: usize = 0;
    proof {
        assert(rv.take(0) =~= Seq::<(Seq<char>, Seq<char>)>::empty());
    }
    while k < rels.len()
        invariant
            k <= rels@.len(),
            rv == pairs_view(rels@),
            first + counted_rels(rv) <= u32::MAX,
            out@ == kept_text + new_rels_xml(rv.take(k as int), first),
            counter as nat == first + counted_rels(rv.take(k as int)),
        decreases rels@.len() - k,
    {
        proof {
            assert(rv.take(k + 1).drop_last() =~= rv.take(k as int));
            assert(rv.take(k + 1).last() == rv[k as int]);
            lemma_counted_rels_mono(rv, k as int + 1);
        }
        let name = rels[k].0.as_str();
        let ghost before = out@;
        push_str(&mut out, REL_OPEN);
        if str_eq(name, "header") {
            push_str(&mut out, "rId1");
        } else if str_eq(name, "footer") {
            push_str(&mut out, "rId2");
        } else {
            push_str(&mut out, "rId");
            let n = u64_to_string(counter as u64);
            push_str(&mut out, n.as_str());
        }
        push_str(&mut out, REL_TYPE);
        push_str(&mut out, rel_type_of(name));
        push_str(&mut out, REL_TARGET);
        push_str(&mut out, rels[k].1.as_str());
        push_str(&mut out, ATTR_CLOSE);
        proof {
            let e = rv[k as int];
            assert(out@ =~= before + relationship_xml(rel_id(e.0, counter as nat), rel_type(e.0), e.1));
        }
        if !str_eq(name, "header") && !str_eq(name, "footer") {
            counter = counter + 1;
        }
        k = k + 1;
    }
    proof {
        assert(rv.take(rels@.len() as int) =~= rv);
    }
    push_str(&mut out, RELS_END);
    out
}

proof fn lemma_counted_rels_mono(rels: Seq<(Seq<char>, Seq<char>)>, k: int)
    requires
        0 <= k <= rels.len(),
    ensures
        counted_rels(rels.take(k)) <= counted_rels(rels),
    decreases rels.len() - k,
{
    if k < rels.len() {
        lemma_counted_rels_mono(rels, k + 1);
        assert(rels.take(k + 1).drop_last() =~= rels.take(k));
    } else {
        assert(rels.take(k) =~= rels);
    }
}

// ---------------------------------------------------------------------------
// Timestamps
// ---------------------------------------------------------------------------

pub open spec fn leap_year(y: int) -> bool {
    (y % 4 == 0 && y % 100 != 0) || y % 400 == 0
}

pub open spec fn year_days(y: int) -> nat {
    if leap_year(y) { 366 } else { 365 }
}

/// The year in which day `days` counted from 1 January of `y` falls, and the
/// day's index within that year.
pub open spec fn year_and_day(days: nat, y: int) -> (int, nat)
    decreases days,
{
    if days < year_days(y) {
        (y, days)
    } else {
        year_and_day((days - year_days(y)) as nat, y + 1)
    }
}

pub open spec fn month_days(leap: bool, m: int) -> nat {
    if m == 1 {
        if leap { 29 } else { 28 }
    } else if m == 3 || m == 5 || m == 8 || m == 10 {
        30
    } else {
        31
    }
}

/// The month (from 1) and the day of the month (from 1) of day index `d`,
/// counting months from index `m`.
pub open spec fn month_and_day(leap: bool, d: nat, m: int) -> (int, nat)
    decreases 12 - m,
{
    if m >= 12 {
        (12, d + 1)
    } else if d < month_days(leap, m) {
        (m + 1, d + 1)
    } else {
        month_and_day(leap, (d - month_days(leap, m)) as nat, m + 1)
    }
}

/// Decimal digits padded with zeros on the left to `w` places.
pub open spec fn zero_pad(s: Seq<char>, w: nat) -> Seq<char> {
    if s.len() < w {
        Seq::new((w - s.len()) as nat, |i: int| '0') + s
    } else {
        s
    }
}

/// `YYYY-MM-DDTHH:MM:SSZ` for a number of seconds since the Unix epoch.
pub open spec fn iso8601(secs: nat) -> Seq<char> {
    let days = secs / 86400;
    let t = secs % 86400;
    let yd = year_and_day(days, 1970);
    let md = month_and_day(leap_year(yd.0), yd.1, 0);
    zero_pad(decimal(yd.0 as nat), 4) + seq!['-'] + zero_pad(decimal(md.0 as nat), 2) + seq!['-']
        + zero_pad(decimal(md.1), 2) + seq!['T'] + zero_pad(decimal(t / 3600), 2) + seq![':']
        + zero_pad(decimal((t % 3600) / 60), 2) + seq![':'] + zero_pad(decimal(t % 60), 2) + seq!['Z']
}

fn is_leap(y: u64) -> (b: bool)
    ensures
        b == leap_year(y as int),
{
    (y % 4 == 0 && y % 100 != 0) || y % 400 == 0
}

fn push_padded(out: &mut String, n: u64, w: usize)
    ensures
        final(out)@ == old(out)@ + zero_pad(decimal(n as nat), w as nat),
{
    let s = u64_to_string(n);
    let ghost start = out@;
    let len = s.unicode_len();
    if len < w {
        let mut k: usize = 0;
        while k < w - len
            invariant
                len == s@.len(),
                len < w,
                k <= w - len,
                out@ == start + Seq::new(k as nat, |i: int| '0'),
            decreases w - len - k,
        {
            out.push('0');
            k = k + 1;
            assert(out@ =~= start + Seq::new(k as nat, |i: int| '0'));
        }
    }
    let ghost mid = out@;
    push_str(out, s.as_str());
    assert(out@ =~= start + zero_pad(decimal(n as nat), w as nat));
}

/// `YYYY-MM-DDTHH:MM:SSZ` for a number of seconds since the Unix epoch.
pub fn iso8601_from_secs(secs: u64) -> (r: String)
    ensures
        r@ == iso8601(secs as nat),
{
    let days = secs / 86400;
    let t = secs % 86400;
    let mut y: u64 = 1970;
    let mut remaining: u64 = days;
    loop
        invariant
            days == secs / 86400,
            remaining <= days,
            1970 <= y <= 1970 + (days - remaining),
            year_and_day(days as nat, 1970) == year_and_day(remaining as nat, y as int),
        ensures
            remaining < year_days(y as int),
            1970 <= y <= 1970 + days,
            year_and_day(days as nat, 1970) == year_and_day(remaining as nat, y as int),
        decreases remaining,
    {
        let len: u64 = if is_leap(y) { 366 } else { 365 };
        if remaining < len {
            break;
        }
        remaining = remaining - len;
        y = y + 1;
    }
    let leap = is_leap(y);
    let mut m: u64 = 0;
    let mut rem: u64 = remaining;
    loop
        invariant
            m <= 12,
            rem <= remaining,
            month_and_day(leap, remaining as nat, 0) == month_and_day(leap, rem as nat, m as int),
        ensures
            m <= 12,
            rem <= remaining,
            m < 12 ==> rem < month_days(leap, m as int),
            month_and_day(leap, remaining as nat, 0) == month_and_day(leap, rem as nat, m as int),
        decreases 12 - m,
    {
        if m >= 12 {
            break;
        }
        let len: u64 = if m == 1 {
            if leap { 29 } else { 28 }
        } else if m == 3 || m == 5 || m == 8 || m == 10 {
            30
        } else {
            31
        };
        if rem < len {
            break;
        }
        rem = rem - len;
        m = m + 1;
    }
    let month: u64 = if m >= 12 { 12 } else { m + 1 };
    let day: u64 = rem + 1;
    assert(year_and_day(days as nat, 1970) == (y as int, remaining as nat));
    assert(month_and_day(leap, remaining as nat, 0) == (month as int, day as nat));
    let mut r = String::new();
    push_padded(&mut r, y, 4);
    r.push('-');
    push_padded(&mut r, month, 2);
    r.push('-');
    push_padded(&mut r, day, 2);
    r.push('T');
    push_padded(&mut r, t / 3600, 2);
    r.push(':');
    push_padded(&mut r, (t % 3600) / 60, 2);
    r.push(':');
    push_padded(&mut r, t % 60, 2);
    r.push('Z');
    r
}

/// The current time as `YYYY-MM-DDTHH:MM:SSZ`, from the machine's clock.
pub fn now_iso8601() -> (r: String)
    ensures
        exists|secs: nat| r@ == iso8601(secs),
{
    let secs = now_millis() / 1000;
    let r = iso8601_from_secs(secs);
    assert(r@ == iso8601(secs as nat));
    r
}

// ---------------------------------------------------------------------------
// Enrichment
// ---------------------------------------------------------------------------

/// Whether the package relationships need rebuilding: they lack the core or
/// the extended properties (both of which the package has once completed).
pub open spec fn package_rels_stale(rels_text: Seq<char>) -> bool {
    !contains_seq(rels_text, "core-properties"@) || !contains_seq(rels_text, "extended-properties"@)
}

/// The package as enrichment leaves it.  The missing parts are appended
/// (`completed_parts`) and the styles part, when there is one, gets the full
/// style sheet.  When a new override names a part that the content types do
/// not list, or the main document gains relationships, the content types are
/// rebuilt; then the package relationships, when stale; then, when the main
/// document gains relationships, its relationships.  Each rebuilt part
/// replaces the first part of its name, or is appended.
pub open spec fn enriched(
    es: Seq<(Seq<char>, Seq<u8>)>,
    title: Seq<char>,
    author: Seq<char>,
    page_numbers: bool,
    header: bool,
    created: Seq<char>,
    modified: Seq<char>,
    styles: Seq<u8>,
) -> Seq<(Seq<char>, Seq<u8>)> {
    let s = with_styles(completed_parts(es, title, author, page_numbers, header, created, modified), styles);
    let ov = new_overrides(es, page_numbers, header);
    let rels = new_document_rels(es, page_numbers, header);
    let ct_text = named_part_text(es, CONTENT_TYPES_PART@);
    if !any_unlisted(ct_text, ov) && rels.len() == 0 {
        s
    } else {
        let s1 = replaced_part(s, CONTENT_TYPES_PART@, encode_utf8(content_types_xml(ct_text, ov)));
        let s2 = if package_rels_stale(named_part_text(es, PACKAGE_RELS_PART@)) {
            replaced_part(s1, PACKAGE_RELS_PART@, encode_utf8(PACKAGE_RELS_XML@))
        } else {
            s1
        };
        if rels.len() > 0 {
            replaced_part(
                s2,
                DOCUMENT_RELS_PART@,
                encode_utf8(document_rels_xml(named_part_text(es, DOCUMENT_RELS_PART@), rels)),
            )
        } else {
            s2
        }
    }
}

/// The packages enrichment can handle: when the main document gains
/// relationships, its old ones can be rebuilt.
pub open spec fn enrich_ok(es: Seq<(Seq<char>, Seq<u8>)>, page_numbers: bool, header: bool) -> bool {
    new_document_rels(es, page_numbers, header).len() > 0 ==> document_rels_ok(
        named_part_text(es, DOCUMENT_RELS_PART@),
        new_document_rels(es, page_numbers, header),
    )
}


fn header_string(title: &str) -> (r: String)
    ensures
        r@ == header_xml(title@),
{
    let mut header = String::new();
    push_str(&mut header, HEADER_OPEN);
    push_str(&mut header, title);
    push_str(&mut header, HEADER_CLOSE);
    header
}

fn core_string(title: &str, author: &str, created: &str, modified: &str) -> (r: String)
    ensures
        r@ == core_xml(title@, author@, created@, modified@),
{
    let mut core = String::new();
    push_str(&mut core, CORE_1);
    push_str(&mut core, title);
    push_str(&mut core, CORE_2);
    push_str(&mut core, author);
    push_str(&mut core, CORE_3);
    push_str(&mut core, created);
    push_str(&mut core, CORE_4);
    push_str(&mut core, modified);
    push_str(&mut core, CORE_5);
    core
}

/// Appends the parts the package lacks; returns their content-type overrides
/// and the relationships the main document gains.
fn complete_entries(
    entries: &mut Vec<(String, Vec<u8>)>,
    title: &str,
    author: &str,
    include_page_numbers: bool,
    include_header: bool,
    created: &str,
    modified: &str,
) -> (r: (Vec<(String, String)>, Vec<(String, String)>))
    ensures
        parts_view(final(entries)@) == completed_parts(
            parts_view(old(entries)@), title@, author@, include_page_numbers, include_header,
            created@, modified@),
        pairs_view(r.0@) == new_overrides(parts_view(old(entries)@), include_page_numbers, include_header),
        pairs_view(r.1@) == new_document_rels(parts_view(old(entries)@), include_page_numbers, include_header),
{
    let has_theme = has_entry(entries, THEME_PART);
    let has_numbering = has_entry(entries, NUMBERING_PART);
    let has_font_table = has_entry(entries, FONT_TABLE_PART);
    let has_settings = has_entry(entries, SETTINGS_PART);
    let has_footer = has_entry(entries, FOOTER_PART);
    let has_header = has_entry(entries, HEADER_PART);
    let has_core = has_entry(entries, CORE_PART);
    let has_app = has_entry(entries, APP_PART);

    let mut overrides: Vec<(String, String)> = Vec::new();
    let mut document_rels: Vec<(String, String)> = Vec::new();

    push_part(entries, !has_theme, THEME_PART, THEME_XML);
    push_pair(&mut overrides, !has_theme, "/word/theme/theme1.xml", CT_THEME);
    push_pair(&mut document_rels, !has_theme, "theme", "theme/theme1.xml");

    push_part(entries, !has_numbering, NUMBERING_PART, NUMBERING_XML);
    push_pair(&mut overrides, !has_numbering, "/word/numbering.xml", CT_NUMBERING);
    push_pair(&mut document_rels, !has_numbering, "numbering", "numbering.xml");

    push_part(entries, !has_font_table, FONT_TABLE_PART, FONT_TABLE_XML);
    push_pair(&mut overrides, !has_font_table, "/word/fontTable.xml", CT_FONT_TABLE);
    push_pair(&mut document_rels, !has_font_table, "fontTable", "fontTable.xml");

    push_part(entries, !has_settings, SETTINGS_PART, SETTINGS_XML);
    push_pair(&mut overrides, !has_settings, "/word/settings.xml", CT_SETTINGS);
    push_pair(&mut document_rels, !has_settings, "settings", "settings.xml");

    push_part(entries, include_page_numbers && !has_footer, FOOTER_PART, FOOTER_XML);
    push_pair(&mut overrides, include_page_numbers && !has_footer, "/word/footer1.xml", CT_FOOTER);
    // The footer relationship is written whenever page numbers are asked
    // for: the part may exist without one.
    push_pair(&mut document_rels, include_page_numbers, "footer", "footer1.xml");

    let header = header_string(title);
    push_part(entries, include_header && !has_header, HEADER_PART, header.as_str());
    push_pair(&mut overrides, include_header && !has_header, "/word/header1.xml", CT_HEADER);
    push_pair(&mut document_rels, include_header, "header", "header1.xml");

    let core = core_string(title, author, created, modified);
    push_part(entries, !has_core, CORE_PART, core.as_str());
    push_pair(&mut overrides, !has_core, "/docProps/core.xml", CT_CORE);

    push_part(entries, !has_app, APP_PART, APP_XML);
    push_pair(&mut overrides, !has_app, "/docProps/app.xml", CT_APP);

    proof {
        let es = parts_view(old(entries)@);
        assert(pairs_view(overrides@) =~= new_overrides(es, include_page_numbers, include_header));
        assert(pairs_view(document_rels@) =~= new_document_rels(es, include_page_numbers, include_header));
    }
    (overrides, document_rels)
}



/// Gives the styles part, when there is one, the full style sheet.
fn swap_styles(entries: &mut Vec<(String, Vec<u8>)>, styles_template: &[u8])
    ensures
        parts_view(final(entries)@) == with_styles(parts_view(old(entries)@), styles_template@),
{
    match position_of(entries, STYLES_PART) {
        Some(pos) => {
            let ghost before = parts_view(entries@);
            let name = entries[pos].0.clone();
            entries.set(pos, (name, vstd::slice::slice_to_vec(styles_template)));
            proof {
                assert(parts_view(entries@) =~= before.update(pos as int, (before[pos as int].0, styles_template@)));
            }
        },
        None => {},
    }

}

/// Completes a Word package so that office suites accept it: appends the
/// theme, numbering, font table, settings, footer (with a page number),
/// header (with the title) and property parts it lacks, swaps in the full
/// style sheet, and brings the content types and relationships up to date.
/// `created` and `modified` are the timestamps the core properties record.
pub fn enrich_entries(
    entries: Vec<(String, Vec<u8>)>,
    title: &str,
    author: &str,
    include_page_numbers: bool,
    include_header: bool,
    created: &str,
    modified: &str,
    styles_template: &[u8],
) -> (r: Vec<(String, Vec<u8>)>)
    requires
        enrich_ok(parts_view(entries@), include_page_numbers, include_header),
    ensures
        parts_view(r@) == enriched(
            parts_view(entries@),
            title@,
            author@,
            include_page_numbers,
            include_header,
            created@,
            modified@,
            styles_template@,
        ),
{
    let ghost es = parts_view(entries@);
    let mut entries = entries;
    // The parts rebuilt below are read now: appending the missing parts and
    // swapping the styles leave them as they are.
    let ct_text = named_text(&entries, CONTENT_TYPES_PART);
    let rels_text = named_text(&entries, PACKAGE_RELS_PART);
    let doc_rels_text = named_text(&entries, DOCUMENT_RELS_PART);

    let (overrides, document_rels) = complete_entries(
        &mut entries, title, author, include_page_numbers, include_header, created, modified);
    swap_styles(&mut entries, styles_template);

    let ct_changed = unlisted_any(&ct_text, &overrides);
    if ct_changed || document_rels.len() > 0 {
        let ct_xml = rebuild_content_types(&ct_text, &overrides);
        replace_entry(&mut entries, CONTENT_TYPES_PART, crate::patchers::string_bytes(&ct_xml));

        // Once completed, the package has both property parts, so the
        // relationships are stale exactly when they lack either.
        let core_rel = existing_relationship(&rels_text, "core-properties");
        let app_rel = existing_relationship(&rels_text, "extended-properties");
        if !core_rel || !app_rel {
            replace_entry(&mut entries, PACKAGE_RELS_PART, str_bytes(PACKAGE_RELS_XML));
        }

        if document_rels.len() > 0 {
            let doc_xml = rebuild_document_rels(&doc_rels_text, &document_rels);
            replace_entry(&mut entries, DOCUMENT_RELS_PART, crate::patchers::string_bytes(&doc_xml));
        }
    }
    entries
}

/// `enrich_entries` with both timestamps read from the machine's clock.
pub fn enrich_docx_entries(
    entries: Vec<(String, Vec<u8>)>,
    title: &str,
    author: &str,
    include_page_numbers: bool,
    include_header: bool,
    styles_template: &[u8],
) -> (r: Vec<(String, Vec<u8>)>)
    requires
        enrich_ok(parts_view(entries@), include_page_numbers, include_header),
    ensures
        exists|c: nat, m: nat|
            parts_view(r@) == enriched(
                parts_view(entries@),
                title@,
                author@,
                include_page_numbers,
                include_header,
                iso8601(c),
                iso8601(m),
                styles_template@,
            ),
{
    let created = now_iso8601();
    let modified = now_iso8601();
    let ghost es = parts_view(entries@);
    let r = enrich_entries(
        entries,
        title,
        author,
        include_page_numbers,
        include_header,
        created.as_str(),
        modified.as_str(),
        styles_template,
    );
    proof {
        let c = choose|c: nat| created@ == iso8601(c);
        let m = choose|m: nat| modified@ == iso8601(m);
        assert(parts_view(r@) == enriched(es, title@, author@, include_page_numbers, include_header,
            iso8601(c), iso8601(m), styles_template@));
    }
    r
}

/// Whether the old relationships of the main document can be rebuilt with
/// the given new ones.
fn document_rels_fit(text: &Vec<char>, rels: &Vec<(String, String)>) -> (b: bool)
    ensures
        b == document_rels_ok(text@, pairs_view(rels@)),
{
    let ghost rv = pairs_view(rels@);
    let ls = lines_of(text);
    let ghost lv = lines(text@);
    let mut counter: u32 = 3;
    let mut i: usize = 0;
    proof {
        assert(lv.take(0) =~= Seq::<Seq<char>>::empty());
    }
    while i < ls.len()
        invariant
            i <= ls@.len(),
            ls@.map_values(|l: Vec<char>| l@) == lv,
            forall|j: int| 0 <= j < i ==> rel_line_ok(#[trigger] lv[j]),
            counter as nat == kept_rels(lv.take(i as int)).1,
            lv == lines(text@),
            rv == pairs_view(rels@),
        decreases ls@.len() - i,
    {
        proof {
            assert(lv.take(i + 1).drop_last() =~= lv.take(i as int));
            assert(lv.take(i + 1).last() == ls@[i as int]@);
        }
        let line = &ls[i];
        if kept_line(line) {
            match id_of_line(line) {
                Some(id) => {
                    match cut_bytes(&id, 3) {
                        Some(k) => {
                            let rest = slice_chars(&id, k, id.len());
                            proof {
                                assert(rest@ =~= id@.skip(k as int));
                            }
                            let num: u32 = match parse_u32_chars(&rest) {
                                Some(v) => v,
                                None => 0,
                            };
                            if num > counter {
                                counter = num;
                            }
                        },
                        None => {
                            proof {
                                assert(lv[i as int] == line@);
                                assert(!rel_line_ok(lv[i as int]));
                                assert(!document_rels_ok(text@, pairs_view(rels@)));
                            }
                            return false;
                        },
                    }
                },
                None => {},
            }
        }
        i = i + 1;
    }
    proof {
        assert(lv.take(ls@.len() as int) =~= lv);
    }
    let mut counted: u64 = 0;
    let mut k: usize = 0;
    proof {
        assert(rv.take(0) =~= Seq::<(Seq<char>, Seq<char>)>::empty());
    }
    while k < rels.len()
        invariant
            k <= rels@.len(),
            rv == pairs_view(rels@),
            counted == counted_rels(rv.take(k as int)),
            counted <= k,
        decreases rels@.len() - k,
    {
        proof {
            assert(rv.take(k + 1).drop_last() =~= rv.take(k as int));
            assert(rv.take(k + 1).last() == rv[k as int]);
        }
        let name = rels[k].0.as_str();
        if !str_eq(name, "header") && !str_eq(name, "footer") {
            counted = counted + 1;
        }
        k = k + 1;
    }
    proof {
        assert(rv.take(rels@.len() as int) =~= rv);
    }
    counted <= 4294967295 && counter as u64 + 1 + counted <= 4294967295
}

/// The relationships the main document would gain.
fn document_rels_for(entries: &Vec<(String, Vec<u8>)>, include_page_numbers: bool, include_header: bool)
    -> (r: Vec<(String, String)>)
    ensures
        pairs_view(r@) == new_document_rels(parts_view(entries@), include_page_numbers, include_header),
{
    let mut rels: Vec<(String, String)> = Vec::new();
    push_pair(&mut rels, !has_entry(entries, THEME_PART), "theme", "theme/theme1.xml");
    push_pair(&mut rels, !has_entry(entries, NUMBERING_PART), "numbering", "numbering.xml");
    push_pair(&mut rels, !has_entry(entries, FONT_TABLE_PART), "fontTable", "fontTable.xml");
    push_pair(&mut rels, !has_entry(entries, SETTINGS_PART), "settings", "settings.xml");
    push_pair(&mut rels, include_page_numbers, "footer", "footer1.xml");
    push_pair(&mut rels, include_header, "header", "header1.xml");
    proof {
        assert(pairs_view(rels@) =~= new_document_rels(parts_view(entries@), include_page_numbers, include_header));
    }
    rels
}

/// Whether a package can be enriched (`enrich_ok`): the old relationships
/// of its main document can be rebuilt whenever they have to be.
pub fn can_enrich(entries: &Vec<(String, Vec<u8>)>, include_page_numbers: bool, include_header: bool) -> (b: bool)
    ensures
        b == enrich_ok(parts_view(entries@), include_page_numbers, include_header),
{
    let rels = document_rels_for(entries, include_page_numbers, include_header);
    if rels.len() == 0 {
        return true;
    }
    let text = named_text(entries, DOCUMENT_RELS_PART);
    document_rels_fit(&text, &rels)
}

// ---------------------------------------------------------------------------
// Laws
// ---------------------------------------------------------------------------

proof fn lemma_has_part_iff(es: Seq<(Seq<char>, Seq<u8>)>, name: Seq<char>)
    ensures
        has_part(es, name) <==> exists|i: int| 0 <= i < es.len() && es[i].0 == name,
{
    lemma_first_named(es, name);
}

proof fn lemma_replaced_keeps(es: Seq<(Seq<char>, Seq<u8>)>, name: Seq<char>, data: Seq<u8>, i: int)
    requires
        0 <= i < es.len(),
    ensures
        replaced_part(es, name, data).len() >= es.len(),
        replaced_part(es, name, data)[i].0 == es[i].0,
        es[i].0 != name ==> replaced_part(es, name, data)[i] == es[i],
{
    lemma_first_named(es, name);
}

proof fn lemma_replaced_has(es: Seq<(Seq<char>, Seq<u8>)>, name: Seq<char>, data: Seq<u8>, n: Seq<char>)
    ensures
        has_part(es, n) ==> has_part(replaced_part(es, name, data), n),
        has_part(replaced_part(es, name, data), name),
{
    lemma_first_named(es, name);
    lemma_has_part_iff(es, n);
    lemma_has_part_iff(replaced_part(es, name, data), n);
    lemma_has_part_iff(replaced_part(es, name, data), name);
    if has_part(es, n) {
        let i = choose|i: int| 0 <= i < es.len() && es[i].0 == n;
        lemma_replaced_keeps(es, name, data, i);
    }
    match first_named(es, name) {
        Some(i) => assert(replaced_part(es, name, data)[i].0 == name),
        None => assert(replaced_part(es, name, data)[es.len() as int].0 == name),
    }
}

proof fn lemma_styles_keep(es: Seq<(Seq<char>, Seq<u8>)>, styles: Seq<u8>, i: int)
    requires
        0 <= i < es.len(),
    ensures
        with_styles(es, styles).len() == es.len(),
        with_styles(es, styles)[i].0 == es[i].0,
        es[i].0 != STYLES_PART@ ==> with_styles(es, styles)[i] == es[i],
{
    lemma_first_named(es, STYLES_PART@);
}

proof fn lemma_styles_has(es: Seq<(Seq<char>, Seq<u8>)>, styles: Seq<u8>, n: Seq<char>)
    ensures
        has_part(es, n) ==> has_part(with_styles(es, styles), n),
{
    lemma_has_part_iff(es, n);
    lemma_has_part_iff(with_styles(es, styles), n);
    if has_part(es, n) {
        let i = choose|i: int| 0 <= i < es.len() && es[i].0 == n;
        lemma_styles_keep(es, styles, i);
    }
}

proof fn lemma_append_has(a: Seq<(Seq<char>, Seq<u8>)>, b: Seq<(Seq<char>, Seq<u8>)>, n: Seq<char>)
    ensures
        has_part(a, n) || has_part(b, n) ==> has_part(a + b, n),
{
    lemma_has_part_iff(a, n);
    lemma_has_part_iff(b, n);
    lemma_has_part_iff(a + b, n);
    if has_part(a, n) {
        let i = choose|i: int| 0 <= i < a.len() && a[i].0 == n;
        assert((a + b)[i] == a[i]);
    } else if has_part(b, n) {
        let i = choose|i: int| 0 <= i < b.len() && b[i].0 == n;
        assert((a + b)[a.len() + i] == b[i]);
    }
}

/// Enrichment keeps every part the package had, in its place and under its
/// name; of those parts only the styles, the content types and the
/// relationship parts can change.
pub proof fn lemma_enrich_keeps_parts(
    es: Seq<(Seq<char>, Seq<u8>)>,
    title: Seq<char>,
    author: Seq<char>,
    page_numbers: bool,
    header: bool,
    created: Seq<char>,
    modified: Seq<char>,
    styles: Seq<u8>,
    i: int,
)
    requires
        0 <= i < es.len(),
    ensures
        ({
            let r = enriched(es, title, author, page_numbers, header, created, modified, styles);
            &&& r.len() >= es.len()
            &&& r[i].0 == es[i].0
            &&& (es[i].0 != STYLES_PART@ && es[i].0 != CONTENT_TYPES_PART@ && es[i].0 != PACKAGE_RELS_PART@
                && es[i].0 != DOCUMENT_RELS_PART@ ==> r[i] == es[i])
        }),
{
    let c = completed_parts(es, title, author, page_numbers, header, created, modified);
    assert(c[i] == es[i]);
    assert(c.len() >= es.len());
    let s = with_styles(c, styles);
    lemma_styles_keep(c, styles, i);
    let ov = new_overrides(es, page_numbers, header);
    let rels = new_document_rels(es, page_numbers, header);
    let ct_text = named_part_text(es, CONTENT_TYPES_PART@);
    let s1 = replaced_part(s, CONTENT_TYPES_PART@, encode_utf8(content_types_xml(ct_text, ov)));
    lemma_replaced_keeps(s, CONTENT_TYPES_PART@, encode_utf8(content_types_xml(ct_text, ov)), i);
    let s2 = if package_rels_stale(named_part_text(es, PACKAGE_RELS_PART@)) {
        replaced_part(s1, PACKAGE_RELS_PART@, encode_utf8(PACKAGE_RELS_XML@))
    } else {
        s1
    };
    lemma_replaced_keeps(s1, PACKAGE_RELS_PART@, encode_utf8(PACKAGE_RELS_XML@), i);
    lemma_replaced_keeps(
        s2,
        DOCUMENT_RELS_PART@,
        encode_utf8(document_rels_xml(named_part_text(es, DOCUMENT_RELS_PART@), rels)),
        i,
    );
}

proof fn lemma_opt_has(c: bool, name: Seq<char>, text: Seq<char>, n: Seq<char>)
    ensures
        c && n == name ==> has_part(opt_part(c, name, text), n),
{
    lemma_has_part_iff(opt_part(c, name, text), n);
    if c && n == name {
        assert(opt_part(c, name, text)[0].0 == name);
    }
}

/// Whether the completed package is bound to have a part called `n`.
pub open spec fn completes_with(es: Seq<(Seq<char>, Seq<u8>)>, page_numbers: bool, header: bool, n: Seq<char>) -> bool {
    ||| has_part(es, n)
    ||| n == THEME_PART@
    ||| n == NUMBERING_PART@
    ||| n == FONT_TABLE_PART@
    ||| n == SETTINGS_PART@
    ||| (page_numbers && n == FOOTER_PART@)
    ||| (header && n == HEADER_PART@)
    ||| n == CORE_PART@
    ||| n == APP_PART@
}

#[verifier::rlimit(50)]
proof fn lemma_completed_has(
    es: Seq<(Seq<char>, Seq<u8>)>,
    title: Seq<char>,
    author: Seq<char>,
    page_numbers: bool,
    header: bool,
    created: Seq<char>,
    modified: Seq<char>,
    n: Seq<char>,
)
    requires
        completes_with(es, page_numbers, header, n),
    ensures
        has_part(completed_parts(es, title, author, page_numbers, header, created, modified), n),
{
    let o1 = opt_part(!has_part(es, THEME_PART@), THEME_PART@, THEME_XML@);
    let o2 = opt_part(!has_part(es, NUMBERING_PART@), NUMBERING_PART@, NUMBERING_XML@);
    let o3 = opt_part(!has_part(es, FONT_TABLE_PART@), FONT_TABLE_PART@, FONT_TABLE_XML@);
    let o4 = opt_part(!has_part(es, SETTINGS_PART@), SETTINGS_PART@, SETTINGS_XML@);
    let o5 = opt_part(page_numbers && !has_part(es, FOOTER_PART@), FOOTER_PART@, FOOTER_XML@);
    let o6 = opt_part(header && !has_part(es, HEADER_PART@), HEADER_PART@, header_xml(title));
    let o7 = opt_part(!has_part(es, CORE_PART@), CORE_PART@, core_xml(title, author, created, modified));
    let o8 = opt_part(!has_part(es, APP_PART@), APP_PART@, APP_XML@);
    lemma_opt_has(!has_part(es, THEME_PART@), THEME_PART@, THEME_XML@, n);
    lemma_opt_has(!has_part(es, NUMBERING_PART@), NUMBERING_PART@, NUMBERING_XML@, n);
    lemma_opt_has(!has_part(es, FONT_TABLE_PART@), FONT_TABLE_PART@, FONT_TABLE_XML@, n);
    lemma_opt_has(!has_part(es, SETTINGS_PART@), SETTINGS_PART@, SETTINGS_XML@, n);
    lemma_opt_has(page_numbers && !has_part(es, FOOTER_PART@), FOOTER_PART@, FOOTER_XML@, n);
    lemma_opt_has(header && !has_part(es, HEADER_PART@), HEADER_PART@, header_xml(title), n);
    lemma_opt_has(!has_part(es, CORE_PART@), CORE_PART@, core_xml(title, author, created, modified), n);
    lemma_opt_has(!has_part(es, APP_PART@), APP_PART@, APP_XML@, n);
    let p1 = es + o1;
    let p2 = p1 + o2;
    let p3 = p2 + o3;
    let p4 = p3 + o4;
    let p5 = p4 + o5;
    let p6 = p5 + o6;
    let p7 = p6 + o7;
    lemma_append_has(es, o1, n);
    lemma_append_has(p1, o2, n);
    lemma_append_has(p2, o3, n);
    lemma_append_has(p3, o4, n);
    lemma_append_has(p4, o5, n);
    lemma_append_has(p5, o6, n);
    lemma_append_has(p6, o7, n);
    lemma_append_has(p7, o8, n);
}

/// After enrichment the package has a theme, numbering, font table,
/// settings, core and extended properties, a footer when page numbers were
/// asked for and a header when a header was (and every part it had).
pub proof fn lemma_enrich_completes(
    es: Seq<(Seq<char>, Seq<u8>)>,
    title: Seq<char>,
    author: Seq<char>,
    page_numbers: bool,
    header: bool,
    created: Seq<char>,
    modified: Seq<char>,
    styles: Seq<u8>,
    n: Seq<char>,
)
    requires
        completes_with(es, page_numbers, header, n),
    ensures
        has_part(enriched(es, title, author, page_numbers, header, created, modified, styles), n),
{
    let c = completed_parts(es, title, author, page_numbers, header, created, modified);
    lemma_completed_has(es, title, author, page_numbers, header, created, modified, n);
    let ov = new_overrides(es, page_numbers, header);
    let rels = new_document_rels(es, page_numbers, header);
    let ct_text = named_part_text(es, CONTENT_TYPES_PART@);
    let s = with_styles(c, styles);
    lemma_styles_has(c, styles, n);
    let d1 = encode_utf8(content_types_xml(ct_text, ov));
    let s1 = replaced_part(s, CONTENT_TYPES_PART@, d1);
    lemma_replaced_has(s, CONTENT_TYPES_PART@, d1, n);
    let d2 = encode_utf8(PACKAGE_RELS_XML@);
    lemma_replaced_has(s1, PACKAGE_RELS_PART@, d2, n);
    let s2 = if package_rels_stale(named_part_text(es, PACKAGE_RELS_PART@)) {
        replaced_part(s1, PACKAGE_RELS_PART@, d2)
    } else {
        s1
    };
    let d3 = encode_utf8(document_rels_xml(named_part_text(es, DOCUMENT_RELS_PART@), rels));
    lemma_replaced_has(s2, DOCUMENT_RELS_PART@, d3, n);
}

} // verus!
