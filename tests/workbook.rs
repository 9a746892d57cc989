use theory_test_parser::{ExamQuestions, LicenseClass, QuestionCategory};

/// A small workbook: one sheet whose header row is
/// `category, extra, description4, title2`, and one data row.
const WORKBOOK: &[u8] = &[
    0x50, 0x4b, 0x03, 0x04, 0x14, 0x00, 0x00, 0x00, 0x08, 0x00, 0x09, 0x8d, 0x53, 0x5d, 0xc5, 0x2f, 0x1d, 0x7d, 0x00, 0x01,
    0x00, 0x00, 0x2e, 0x02, 0x00, 0x00, 0x13, 0x00, 0x00, 0x00, 0x5b, 0x43, 0x6f, 0x6e, 0x74, 0x65, 0x6e, 0x74, 0x5f, 0x54,
    0x79, 0x70, 0x65, 0x73, 0x5d, 0x2e, 0x78, 0x6d, 0x6c, 0xad, 0x91, 0xcd, 0x4e, 0xc3, 0x30, 0x10, 0x84, 0xef, 0x3c, 0x85,
    0xe5, 0x6b, 0x15, 0x3b, 0xe5, 0x80, 0x10, 0x4a, 0xd2, 0x43, 0x81, 0x23, 0x70, 0x28, 0x0f, 0xb0, 0x38, 0x9b, 0xc4, 0x8a,
    0xff, 0xe4, 0x75, 0x4b, 0xfa, 0xf6, 0x38, 0x69, 0xe1, 0x80, 0x0a, 0x5c, 0x38, 0xad, 0xec, 0x99, 0xd9, 0x6f, 0x64, 0x57,
    0x9b, 0xc9, 0x1a, 0x76, 0xc0, 0x48, 0xda, 0xbb, 0x9a, 0xaf, 0x45, 0xc9, 0x19, 0x3a, 0xe5, 0x5b, 0xed, 0xfa, 0x9a, 0xbf,
    0xee, 0x1e, 0x8b, 0x5b, 0xce, 0x28, 0x81, 0x6b, 0xc1, 0x78, 0x87, 0x35, 0x3f, 0x22, 0xf1, 0x4d, 0x73, 0x55, 0xed, 0x8e,
    0x01, 0x89, 0xe5, 0xb0, 0xa3, 0x9a, 0x0f, 0x29, 0x85, 0x3b, 0x29, 0x49, 0x0d, 0x68, 0x81, 0x84, 0x0f, 0xe8, 0xb2, 0xd2,
    0xf9, 0x68, 0x21, 0xe5, 0x63, 0xec, 0x65, 0x00, 0x35, 0x42, 0x8f, 0xf2, 0xba, 0x2c, 0x6f, 0xa4, 0xf2, 0x2e, 0xa1, 0x4b,
    0x45, 0x9a, 0x77, 0xf0, 0xa6, 0xba, 0xc7, 0x0e, 0xf6, 0x26, 0xb1, 0x87, 0x29, 0x5f, 0x9f, 0x8a, 0x44, 0x34, 0xc4, 0xd9,
    0xf6, 0x64, 0x9c, 0x59, 0x35, 0x87, 0x10, 0x8c, 0x56, 0x90, 0xb2, 0x2e, 0x0f, 0xae, 0xfd, 0x46, 0x29, 0xce, 0x04, 0x91,
    0x93, 0x8b, 0x87, 0x06, 0x1d, 0x68, 0x95, 0x0d, 0x5c, 0x5e, 0x24, 0xcc, 0xca, 0xcf, 0x80, 0x73, 0xee, 0x39, 0xbf, 0x4c,
    0xd4, 0x2d, 0xb2, 0x17, 0x88, 0xe9, 0x09, 0x6c, 0x76, 0xc9, 0xc9, 0xc8, 0x77, 0x1f, 0xc7, 0x37, 0xef, 0x47, 0xf1, 0xfb,
    0x92, 0x0b, 0x2d, 0x7d, 0xd7, 0x69, 0x85, 0xad, 0x57, 0x7b, 0x9b, 0x23, 0x82, 0x42, 0x44, 0x68, 0x69, 0x40, 0x4c, 0xd6,
    0x88, 0x65, 0x0a, 0x0b, 0xda, 0xad, 0xfe, 0xe6, 0x2f, 0x66, 0x92, 0xcb, 0x58, 0xff, 0x73, 0x91, 0xaf, 0xfd, 0x9f, 0x3d,
    0xe4, 0xf2, 0xdd, 0xcd, 0x07, 0x50, 0x4b, 0x03, 0x04, 0x14, 0x00, 0x00, 0x00, 0x08, 0x00, 0x09, 0x8d, 0x53, 0x5d, 0x06,
    0x59, 0xc7, 0x82, 0xb1, 0x00, 0x00, 0x00, 0x28, 0x01, 0x00, 0x00, 0x0b, 0x00, 0x00, 0x00, 0x5f, 0x72, 0x65, 0x6c, 0x73,
    0x2f, 0x2e, 0x72, 0x65, 0x6c, 0x73, 0x8d, 0xcf, 0xb1, 0x0e, 0x82, 0x30, 0x10, 0x06, 0xe0, 0xdd, 0xa7, 0x68, 0x6e, 0x97,
    0x82, 0x83, 0x31, 0x86, 0xc2, 0x62, 0x4c, 0x58, 0x0d, 0x3e, 0x40, 0x6d, 0x8f, 0x42, 0x80, 0x5e, 0xd3, 0x56, 0x85, 0xb7,
    0xb7, 0xa3, 0x1a, 0x07, 0xc7, 0xcb, 0xfd, 0xf7, 0xfd, 0xb9, 0xb2, 0x5e, 0xe6, 0x89, 0x3d, 0xd0, 0x87, 0x81, 0xac, 0x80,
    0x22, 0xcb, 0x81, 0xa1, 0x55, 0xa4, 0x07, 0x6b, 0x04, 0x5c, 0xdb, 0xf3, 0xf6, 0x00, 0x2c, 0x44, 0x69, 0xb5, 0x9c, 0xc8,
    0xa2, 0x80, 0x15, 0x03, 0xd4, 0xd5, 0xa6, 0xbc, 0xe0, 0x24, 0x63, 0xba, 0x09, 0xfd, 0xe0, 0x02, 0x4b, 0x88, 0x0d, 0x02,
    0xfa, 0x18, 0xdd, 0x91, 0xf3, 0xa0, 0x7a, 0x9c, 0x65, 0xc8, 0xc8, 0xa1, 0x4d, 0x9b, 0x8e, 0xfc, 0x2c, 0x63, 0x1a, 0xbd,
    0xe1, 0x4e, 0xaa, 0x51, 0x1a, 0xe4, 0xbb, 0x3c, 0xdf, 0x73, 0xff, 0x6e, 0x40, 0xf5, 0x61, 0xb2, 0x46, 0x0b, 0xf0, 0x8d,
    0x2e, 0x80, 0xb5, 0xab, 0xc3, 0x7f, 0x6c, 0xea, 0xba, 0x41, 0xe1, 0x89, 0xd4, 0x7d, 0x46, 0x1b, 0x7f, 0x54, 0x7c, 0x25,
    0x92, 0x2c, 0xbd, 0xc1, 0x28, 0x60, 0x99, 0xf8, 0x93, 0xfc, 0x78, 0x23, 0x1a, 0xb3, 0x84, 0x02, 0xaf, 0x4a, 0xfe, 0xf1,
    0x60, 0xf5, 0x02, 0x50, 0x4b, 0x03, 0x04, 0x14, 0x00, 0x00, 0x00, 0x08, 0x00, 0x09, 0x8d, 0x53, 0x5d, 0x77, 0x40, 0xfe,
    0xc4, 0xbc, 0x00, 0x00, 0x00, 0x1c, 0x01, 0x00, 0x00, 0x0f, 0x00, 0x00, 0x00, 0x78, 0x6c, 0x2f, 0x77, 0x6f, 0x72, 0x6b,
    0x62, 0x6f, 0x6f, 0x6b, 0x2e, 0x78, 0x6d, 0x6c, 0x8d, 0x4f, 0xcb, 0x8e, 0xc2, 0x30, 0x0c, 0xbc, 0xf3, 0x15, 0x91, 0xef,
    0x4b, 0xda, 0x3d, 0x20, 0x54, 0xb5, 0xe5, 0x82, 0x90, 0x38, 0x2f, 0x7c, 0x40, 0x68, 0x5c, 0x1a, 0xd1, 0xd8, 0x95, 0x9d,
    0xe5, 0xf1, 0xf7, 0x84, 0xd7, 0x9d, 0xd3, 0x8c, 0x35, 0x9a, 0xf1, 0x4c, 0xbd, 0xba, 0xc6, 0xd1, 0x9c, 0x51, 0x34, 0x30,
    0x35, 0x50, 0xce, 0x0b, 0x30, 0x48, 0x1d, 0xfb, 0x40, 0xc7, 0x06, 0xf6, 0xbb, 0xcd, 0xcf, 0x12, 0x8c, 0x26, 0x47, 0xde,
    0x8d, 0x4c, 0xd8, 0xc0, 0x0d, 0x15, 0x56, 0xed, 0xac, 0xbe, 0xb0, 0x9c, 0x0e, 0xcc, 0x27, 0x93, 0xfd, 0xa4, 0x0d, 0x0c,
    0x29, 0x4d, 0x95, 0xb5, 0xda, 0x0d, 0x18, 0x9d, 0xce, 0x79, 0x42, 0xca, 0x4a, 0xcf, 0x12, 0x5d, 0xca, 0xa7, 0x1c, 0xad,
    0x4e, 0x82, 0xce, 0xeb, 0x80, 0x98, 0xe2, 0x68, 0x7f, 0x8b, 0x62, 0x61, 0xa3, 0x0b, 0x04, 0xaf, 0x84, 0x4a, 0xbe, 0xc9,
    0xe0, 0xbe, 0x0f, 0x1d, 0xae, 0xb9, 0xfb, 0x8f, 0x48, 0xe9, 0x15, 0x22, 0x38, 0xba, 0x94, 0xdb, 0xeb, 0x10, 0x26, 0x85,
    0xb6, 0x7e, 0x7e, 0xd0, 0x37, 0x1a, 0x72, 0x31, 0xb7, 0xfe, 0x7b, 0xf0, 0x32, 0x2f, 0x79, 0xe0, 0xd6, 0xe7, 0xa1, 0x60,
    0xa4, 0x0a, 0x99, 0xc8, 0xd6, 0x97, 0x60, 0xdb, 0xda, 0x7e, 0x6c, 0xf6, 0xb3, 0xac, 0xbd, 0x03, 0x50, 0x4b, 0x03, 0x04,
    0x14, 0x00, 0x00, 0x00, 0x08, 0x00, 0x09, 0x8d, 0x53, 0x5d, 0x9a, 0x6f, 0x3c, 0x7c, 0xb5, 0x00, 0x00, 0x00, 0x29, 0x01,
    0x00, 0x00, 0x1a, 0x00, 0x00, 0x00, 0x78, 0x6c, 0x2f, 0x5f, 0x72, 0x65, 0x6c, 0x73, 0x2f, 0x77, 0x6f, 0x72, 0x6b, 0x62,
    0x6f, 0x6f, 0x6b, 0x2e, 0x78, 0x6d, 0x6c, 0x2e, 0x72, 0x65, 0x6c, 0x73, 0x8d, 0xcf, 0xcd, 0x0a, 0xc2, 0x30, 0x0c, 0x07,
    0xf0, 0xbb, 0x4f, 0x51, 0x72, 0x77, 0xd9, 0x3c, 0x88, 0xc8, 0xba, 0x5d, 0x44, 0xd8, 0x55, 0xe6, 0x03, 0x94, 0x2e, 0xfb,
    0x60, 0x5b, 0x5b, 0x9a, 0xfa, 0xb1, 0xb7, 0xb7, 0x78, 0x10, 0x07, 0x1e, 0x3c, 0x85, 0xe4, 0x4f, 0x7e, 0x21, 0x79, 0xf9,
    0x9c, 0x27, 0x71, 0x27, 0xcf, 0x83, 0x35, 0x12, 0xb2, 0x24, 0x05, 0x41, 0x46, 0xdb, 0x66, 0x30, 0x9d, 0x84, 0x6b, 0x7d,
    0xde, 0x1e, 0x40, 0x70, 0x50, 0xa6, 0x51, 0x93, 0x35, 0x24, 0x61, 0x21, 0x86, 0xb2, 0xd8, 0xe4, 0x17, 0x9a, 0x54, 0x88,
    0x3b, 0xdc, 0x0f, 0x8e, 0x45, 0x44, 0x0c, 0x4b, 0xe8, 0x43, 0x70, 0x47, 0x44, 0xd6, 0x3d, 0xcd, 0x8a, 0x13, 0xeb, 0xc8,
    0xc4, 0xa4, 0xb5, 0x7e, 0x56, 0x21, 0xb6, 0xbe, 0x43, 0xa7, 0xf4, 0xa8, 0x3a, 0xc2, 0x5d, 0x9a, 0xee, 0xd1, 0x7f, 0x1b,
    0x50, 0xac, 0x4c, 0x51, 0x35, 0x12, 0x7c, 0xd5, 0x64, 0x20, 0xea, 0xc5, 0xd1, 0x3f, 0xb6, 0x6d, 0xdb, 0x41, 0xd3, 0xc9,
    0xea, 0xdb, 0x4c, 0x26, 0xfc, 0x38, 0x81, 0x0f, 0xeb, 0x47, 0xee, 0x89, 0x42, 0x44, 0x95, 0xef, 0x28, 0x48, 0xf8, 0x8c,
    0x18, 0xdf, 0x25, 0x4b, 0xa2, 0x0a, 0x58, 0xe4, 0xb8, 0xfa, 0xb0, 0x78, 0x01, 0x50, 0x4b, 0x03, 0x04, 0x14, 0x00, 0x00,
    0x00, 0x08, 0x00, 0x09, 0x8d, 0x53, 0x5d, 0x42, 0x6f, 0x91, 0x5d, 0x46, 0x01, 0x00, 0x00, 0x0c, 0x03, 0x00, 0x00, 0x18,
    0x00, 0x00, 0x00, 0x78, 0x6c, 0x2f, 0x77, 0x6f, 0x72, 0x6b, 0x73, 0x68, 0x65, 0x65, 0x74, 0x73, 0x2f, 0x73, 0x68, 0x65,
    0x65, 0x74, 0x31, 0x2e, 0x78, 0x6d, 0x6c, 0x75, 0x92, 0x41, 0x4e, 0xc3, 0x30, 0x10, 0x45, 0xf7, 0x9c, 0xc2, 0xf2, 0xa2,
    0x3b, 0xea, 0x24, 0x54, 0x08, 0x51, 0x27, 0x55, 0x68, 0xc5, 0x05, 0x80, 0x03, 0x58, 0xce, 0x90, 0x5a, 0x24, 0x76, 0xb0,
    0x47, 0xb4, 0x95, 0xb8, 0x06, 0x0b, 0x16, 0xb0, 0x46, 0x70, 0x04, 0x76, 0xbd, 0x44, 0xae, 0x83, 0x1d, 0x41, 0x45, 0xa5,
    0x78, 0x61, 0x8d, 0x3d, 0x7f, 0xde, 0xc8, 0xdf, 0x63, 0xbe, 0xd8, 0xb6, 0x0d, 0x79, 0x02, 0xeb, 0x94, 0xd1, 0x39, 0x4d,
    0xa7, 0x09, 0x25, 0xa0, 0xa5, 0xa9, 0x94, 0xae, 0x73, 0x7a, 0x77, 0x7b, 0x7d, 0x7a, 0x41, 0x89, 0x43, 0xa1, 0x2b, 0xd1,
    0x18, 0x0d, 0x39, 0xdd, 0x81, 0xa3, 0x8b, 0xe2, 0x84, 0x6f, 0x8c, 0x7d, 0x70, 0x6b, 0x00, 0x24, 0xbe, 0x81, 0x76, 0x39,
    0x5d, 0x23, 0x76, 0x97, 0x8c, 0x39, 0xb9, 0x86, 0x56, 0xb8, 0xa9, 0xe9, 0x40, 0x7b, 0xe5, 0xde, 0xd8, 0x56, 0xa0, 0x3f,
    0xda, 0x9a, 0xb9, 0xce, 0x82, 0xa8, 0x06, 0xa8, 0x6d, 0x58, 0x96, 0x24, 0xe7, 0xac, 0x15, 0x4a, 0xd3, 0x82, 0x0f, 0xb9,
    0x95, 0x40, 0x51, 0x70, 0x6b, 0x36, 0xc4, 0xfa, 0x8b, 0xf8, 0xac, 0x0c, 0x9b, 0x32, 0xa5, 0x04, 0x73, 0xaa, 0x74, 0xa3,
    0x34, 0xdc, 0xa0, 0xf5, 0x79, 0xe5, 0x0a, 0x8e, 0x85, 0x14, 0x08, 0xb5, 0xb1, 0x3b, 0xce, 0xb0, 0xe0, 0x2c, 0xe4, 0x98,
    0xfc, 0x65, 0xae, 0x62, 0x0c, 0x6c, 0xd1, 0x8a, 0x11, 0x60, 0x19, 0x03, 0x2a, 0x70, 0xd2, 0xaa, 0x0e, 0xfd, 0xe3, 0xcc,
    0x46, 0xb8, 0x55, 0x8c, 0x43, 0x85, 0x0d, 0x64, 0xc7, 0x04, 0xf3, 0xd6, 0x0e, 0xfe, 0xb2, 0x83, 0xbf, 0x2c, 0xd2, 0xa2,
    0xff, 0xec, 0xdf, 0xfb, 0x8f, 0xfe, 0xc5, 0xaf, 0xd7, 0xfe, 0x6d, 0xcc, 0x65, 0x8c, 0xdc, 0x8e, 0x39, 0x8c, 0x15, 0x4f,
    0x1a, 0x9c, 0xbb, 0x4e, 0x68, 0xa2, 0xaa, 0x9c, 0x4a, 0x63, 0x2d, 0x48, 0x2c, 0xb5, 0xdb, 0x80, 0x4d, 0x92, 0x24, 0xa5,
    0x93, 0x1a, 0xe7, 0x65, 0x1a, 0x8a, 0x58, 0xa8, 0x0a, 0xc7, 0x3f, 0x62, 0x90, 0xb2, 0xb8, 0x74, 0x16, 0x97, 0x66, 0x51,
    0xe9, 0x99, 0xec, 0xbf, 0xca, 0xfd, 0x37, 0x09, 0x71, 0x19, 0xe2, 0x51, 0xe5, 0xd8, 0x08, 0x62, 0xc6, 0xc2, 0xf5, 0xa7,
    0xe4, 0x71, 0x6c, 0x06, 0xec, 0xdf, 0x7f, 0x63, 0x87, 0x8f, 0x5c, 0xfc, 0x00, 0x50, 0x4b, 0x01, 0x02, 0x14, 0x03, 0x14,
    0x00, 0x00, 0x00, 0x08, 0x00, 0x09, 0x8d, 0x53, 0x5d, 0xc5, 0x2f, 0x1d, 0x7d, 0x00, 0x01, 0x00, 0x00, 0x2e, 0x02, 0x00,
    0x00, 0x13, 0x00, 0x00, 0x00, 0x00, 0x00, 0x00, 0x00, 0x00, 0x00, 0x00, 0x00, 0x80, 0x01, 0x00, 0x00, 0x00, 0x00, 0x5b,
    0x43, 0x6f, 0x6e, 0x74, 0x65, 0x6e, 0x74, 0x5f, 0x54, 0x79, 0x70, 0x65, 0x73, 0x5d, 0x2e, 0x78, 0x6d, 0x6c, 0x50, 0x4b,
    0x01, 0x02, 0x14, 0x03, 0x14, 0x00, 0x00, 0x00, 0x08, 0x00, 0x09, 0x8d, 0x53, 0x5d, 0x06, 0x59, 0xc7, 0x82, 0xb1, 0x00,
    0x00, 0x00, 0x28, 0x01, 0x00, 0x00, 0x0b, 0x00, 0x00, 0x00, 0x00, 0x00, 0x00, 0x00, 0x00, 0x00, 0x00, 0x00, 0x80, 0x01,
    0x31, 0x01, 0x00, 0x00, 0x5f, 0x72, 0x65, 0x6c, 0x73, 0x2f, 0x2e, 0x72, 0x65, 0x6c, 0x73, 0x50, 0x4b, 0x01, 0x02, 0x14,
    0x03, 0x14, 0x00, 0x00, 0x00, 0x08, 0x00, 0x09, 0x8d, 0x53, 0x5d, 0x77, 0x40, 0xfe, 0xc4, 0xbc, 0x00, 0x00, 0x00, 0x1c,
    0x01, 0x00, 0x00, 0x0f, 0x00, 0x00, 0x00, 0x00, 0x00, 0x00, 0x00, 0x00, 0x00, 0x00, 0x00, 0x80, 0x01, 0x0b, 0x02, 0x00,
    0x00, 0x78, 0x6c, 0x2f, 0x77, 0x6f, 0x72, 0x6b, 0x62, 0x6f, 0x6f, 0x6b, 0x2e, 0x78, 0x6d, 0x6c, 0x50, 0x4b, 0x01, 0x02,
    0x14, 0x03, 0x14, 0x00, 0x00, 0x00, 0x08, 0x00, 0x09, 0x8d, 0x53, 0x5d, 0x9a, 0x6f, 0x3c, 0x7c, 0xb5, 0x00, 0x00, 0x00,
    0x29, 0x01, 0x00, 0x00, 0x1a, 0x00, 0x00, 0x00, 0x00, 0x00, 0x00, 0x00, 0x00, 0x00, 0x00, 0x00, 0x80, 0x01, 0xf4, 0x02,
    0x00, 0x00, 0x78, 0x6c, 0x2f, 0x5f, 0x72, 0x65, 0x6c, 0x73, 0x2f, 0x77, 0x6f, 0x72, 0x6b, 0x62, 0x6f, 0x6f, 0x6b, 0x2e,
    0x78, 0x6d, 0x6c, 0x2e, 0x72, 0x65, 0x6c, 0x73, 0x50, 0x4b, 0x01, 0x02, 0x14, 0x03, 0x14, 0x00, 0x00, 0x00, 0x08, 0x00,
    0x09, 0x8d, 0x53, 0x5d, 0x42, 0x6f, 0x91, 0x5d, 0x46, 0x01, 0x00, 0x00, 0x0c, 0x03, 0x00, 0x00, 0x18, 0x00, 0x00, 0x00,
    0x00, 0x00, 0x00, 0x00, 0x00, 0x00, 0x00, 0x00, 0x80, 0x01, 0xe1, 0x03, 0x00, 0x00, 0x78, 0x6c, 0x2f, 0x77, 0x6f, 0x72,
    0x6b, 0x73, 0x68, 0x65, 0x65, 0x74, 0x73, 0x2f, 0x73, 0x68, 0x65, 0x65, 0x74, 0x31, 0x2e, 0x78, 0x6d, 0x6c, 0x50, 0x4b,
    0x05, 0x06, 0x00, 0x00, 0x00, 0x00, 0x05, 0x00, 0x05, 0x00, 0x45, 0x01, 0x00, 0x00, 0x5d, 0x05, 0x00, 0x00, 0x00, 0x00,
];

#[test]
fn workbook_bytes_parse_to_a_bank() {
    let bank = ExamQuestions::parse_from_xlsx(WORKBOOK).ok().unwrap();
    assert_eq!(bank.questions.len(), 1);
    let q = &bank.questions[0];
    assert_eq!(q.num, 1);
    assert_eq!(q.question, "0001. q");
    assert_eq!(q.category, QuestionCategory::RoadSigns);
    assert_eq!(q.answers.possible_answers, vec!["A1", "A2", "A3", "A4"]);
    assert_eq!(q.answers.correct_answer, 0);
    assert_eq!(q.license_classes, vec![LicenseClass::A, LicenseClass::C1]);
    assert_eq!(q.image_url, None);
}
